use crate::generics::{bound_ids, flat_len, slot_of, GenericsList};
use crate::registry::{path_view, opt_str_view, shape_refs, Field, Registry, Shape, TypeNode, TypeParam, Variant};
use vstd::prelude::*;

verus! {

/// The number of identifiers not yet visited.
pub open spec fn unvisited(v: Seq<bool>) -> nat
    decreases v.len(),
{
    if v.len() == 0 {
        0
    } else {
        unvisited(v.drop_last()) + if v.last() {
            0nat
        } else {
            1nat
        }
    }
}

/// The measure of a pair of visited sets.
pub open spec fn unvisited2(va: Seq<bool>, vb: Seq<bool>) -> nat {
    unvisited(va) + unvisited(vb)
}

/// Both identifiers stand for the same generic position in their scopes.
pub open spec fn same_slot(ga: Seq<Seq<u32>>, a: u32, gb: Seq<Seq<u32>>, b: u32) -> bool {
    slot_of(ga, a) is Some && slot_of(ga, a) == slot_of(gb, b)
}

/// The declared parameter names agree position by position, as far as both lists go.
pub open spec fn param_names_match(pa: Seq<TypeParam>, pb: Seq<TypeParam>) -> bool {
    forall|i: int| 0 <= i < pa.len() && 0 <= i < pb.len() ==> #[trigger] pa[i].name@ == pb[i].name@
}

/// The outcome of comparing `a` (in scope `ga`, visited set `va`) with `b` (in scope
/// `gb`, visited set `vb`): whether they are equal, and the visited sets afterwards.
///
/// Comparison goes depth first, left to right, and stops at the first difference.
/// An identifier is marked visited when the comparison reaches it; meeting an
/// identifier again on one side only is a difference, on both sides a match.
pub open spec fn eq_ids(
    reg: Registry,
    a: u32,
    ga: Seq<Seq<u32>>,
    va: Seq<bool>,
    b: u32,
    gb: Seq<Seq<u32>>,
    vb: Seq<bool>,
) -> (bool, Seq<bool>, Seq<bool>)
    decreases unvisited2(va, vb), 0nat, 0nat,
{
    if a == b {
        (true, va, vb)
    } else if !(reg.contains(a) && reg.contains(b) && va.len() == reg.len() && vb.len() == reg.len()) {
        (false, va, vb)
    } else {
        let va2 = va.update(a as int, true);
        let vb2 = vb.update(b as int, true);
        if va[a as int] != vb[b as int] {
            (false, va2, vb2)
        } else if va[a as int] {
            (true, va2, vb2)
        } else if same_slot(ga, a, gb, b) {
            (true, va2, vb2)
        } else {
            let na = reg.node(a);
            let nb = reg.node(b);
            if path_view(na.path@) != path_view(nb.path@) || !param_names_match(
                na.type_params@,
                nb.type_params@,
            ) {
                (false, va2, vb2)
            } else {
                proof {
                    lemma_unvisited_mark(va, a as int);
                    lemma_unvisited_mark(vb, b as int);
                }
                let ga2 = ga.push(bound_ids(na.type_params@));
                let gb2 = gb.push(bound_ids(nb.type_params@));
                match (na.shape, nb.shape) {
                    (Shape::Composite(fa), Shape::Composite(fb)) => {
                        if fa@.len() != fb@.len() {
                            (false, va2, vb2)
                        } else {
                            fields_from(reg, fa@, fb@, 0, ga2, va2, gb2, vb2)
                        }
                    },
                    (Shape::Variant(xa), Shape::Variant(xb)) => {
                        if xa@.len() != xb@.len() {
                            (false, va2, vb2)
                        } else {
                            variants_from(reg, xa@, xb@, 0, ga2, va2, gb2, vb2)
                        }
                    },
                    (Shape::Sequence(x), Shape::Sequence(y)) => eq_ids(reg, x, ga2, va2, y, gb2, vb2),
                    (Shape::Array(la, x), Shape::Array(lb, y)) => {
                        if la != lb {
                            (false, va2, vb2)
                        } else {
                            eq_ids(reg, x, ga2, va2, y, gb2, vb2)
                        }
                    },
                    (Shape::Tuple(xs), Shape::Tuple(ys)) => {
                        if xs@.len() != ys@.len() {
                            (false, va2, vb2)
                        } else {
                            ids_from(reg, xs@, ys@, 0, ga2, va2, gb2, vb2)
                        }
                    },
                    (Shape::Primitive(p), Shape::Primitive(q)) => (p == q, va2, vb2),
                    (Shape::Compact(x), Shape::Compact(y)) => eq_ids(reg, x, ga2, va2, y, gb2, vb2),
                    (Shape::BitSequence(sa, oa), Shape::BitSequence(sb, ob)) => ids_from(
                        reg,
                        seq![oa, sa],
                        seq![ob, sb],
                        0,
                        ga2,
                        va2,
                        gb2,
                        vb2,
                    ),
                    _ => (false, va2, vb2),
                }
            }
        }
    }
}

/// Compares the fields of two lists from position `i` on: names, declared type
/// names, then the field types. (The visited sets only grow, so the guard on the
/// measure never decides.)
pub open spec fn fields_from(
    reg: Registry,
    fa: Seq<Field>,
    fb: Seq<Field>,
    i: int,
    ga: Seq<Seq<u32>>,
    va: Seq<bool>,
    gb: Seq<Seq<u32>>,
    vb: Seq<bool>,
) -> (bool, Seq<bool>, Seq<bool>)
    decreases unvisited2(va, vb), 1nat, fa.len() - i,
{
    if i < 0 || i >= fa.len() || i >= fb.len() {
        (true, va, vb)
    } else if opt_str_view(fa[i].name) != opt_str_view(fb[i].name) || opt_str_view(fa[i].ty_name)
        != opt_str_view(fb[i].ty_name) {
        (false, va, vb)
    } else {
        let r = eq_ids(reg, fa[i].ty, ga, va, fb[i].ty, gb, vb);
        if !r.0 || unvisited2(r.1, r.2) > unvisited2(va, vb) {
            (false, r.1, r.2)
        } else {
            fields_from(reg, fa, fb, i + 1, ga, r.1, gb, r.2)
        }
    }
}

/// Compares two lists of type identifiers pairwise from position `i` on.
pub open spec fn ids_from(
    reg: Registry,
    xs: Seq<u32>,
    ys: Seq<u32>,
    i: int,
    ga: Seq<Seq<u32>>,
    va: Seq<bool>,
    gb: Seq<Seq<u32>>,
    vb: Seq<bool>,
) -> (bool, Seq<bool>, Seq<bool>)
    decreases unvisited2(va, vb), 1nat, xs.len() - i,
{
    if i < 0 || i >= xs.len() || i >= ys.len() {
        (true, va, vb)
    } else {
        let r = eq_ids(reg, xs[i], ga, va, ys[i], gb, vb);
        if !r.0 || unvisited2(r.1, r.2) > unvisited2(va, vb) {
            (false, r.1, r.2)
        } else {
            ids_from(reg, xs, ys, i + 1, ga, r.1, gb, r.2)
        }
    }
}

/// Compares two lists of variants from position `i` on: name, discriminant, the
/// number of fields, then the fields.
pub open spec fn variants_from(
    reg: Registry,
    xa: Seq<Variant>,
    xb: Seq<Variant>,
    i: int,
    ga: Seq<Seq<u32>>,
    va: Seq<bool>,
    gb: Seq<Seq<u32>>,
    vb: Seq<bool>,
) -> (bool, Seq<bool>, Seq<bool>)
    decreases unvisited2(va, vb), 2nat, xa.len() - i,
{
    if i < 0 || i >= xa.len() || i >= xb.len() {
        (true, va, vb)
    } else if xa[i].name@ != xb[i].name@ || xa[i].index != xb[i].index || xa[i].fields@.len()
        != xb[i].fields@.len() {
        (false, va, vb)
    } else {
        let r = fields_from(reg, xa[i].fields@, xb[i].fields@, 0, ga, va, gb, vb);
        if !r.0 || unvisited2(r.1, r.2) > unvisited2(va, vb) {
            (false, r.1, r.2)
        } else {
            variants_from(reg, xa, xb, i + 1, ga, r.1, gb, r.2)
        }
    }
}

/// A visited set with nothing in it.
pub open spec fn none_visited(n: nat) -> Seq<bool> {
    Seq::new(n, |i: int| false)
}

/// Whether two types of the registry are structurally equal.
pub open spec fn types_equal_spec(reg: Registry, a: u32, b: u32) -> bool {
    eq_ids(
        reg,
        a,
        seq![Seq::<u32>::empty()],
        none_visited(reg.len()),
        b,
        seq![Seq::<u32>::empty()],
        none_visited(reg.len()),
    ).0
}

pub proof fn lemma_unvisited_mark(v: Seq<bool>, i: int)
    requires
        0 <= i < v.len(),
        !v[i],
    ensures
        unvisited(v.update(i, true)) + 1 == unvisited(v),
    decreases v.len(),
{
    let w = v.update(i, true);
    if i == v.len() - 1 {
        assert(w.drop_last() =~= v.drop_last());
    } else {
        assert(w.drop_last() =~= v.drop_last().update(i, true));
        lemma_unvisited_mark(v.drop_last(), i);
    }
}


/// The number of declared parameters of the nodes marked in `v`.
pub open spec fn weight(reg: Registry, v: Seq<bool>) -> nat
    decreases v.len(),
{
    if v.len() == 0 {
        0
    } else {
        weight(reg, v.drop_last()) + if v.last() {
            reg.types@[v.len() - 1].type_params@.len()
        } else {
            0nat
        }
    }
}

/// The number of declared parameters over the whole registry.
pub open spec fn total_params(reg: Registry) -> nat {
    weight(reg, Seq::new(reg.len(), |i: int| true))
}

/// `w` marks at least what `v` marks.
pub open spec fn grows(v: Seq<bool>, w: Seq<bool>) -> bool {
    v.len() == w.len() && forall|k: int| 0 <= k < v.len() && v[k] ==> w[k]
}

/// What a comparison in progress keeps true: the scopes never hold more bindings
/// than the visited nodes declare, and those fit in a `usize`.
pub open spec fn ctx_ok(
    reg: Registry,
    ga: Seq<Seq<u32>>,
    va: Seq<bool>,
    gb: Seq<Seq<u32>>,
    vb: Seq<bool>,
) -> bool {
    &&& reg.well_formed()
    &&& total_params(reg) <= usize::MAX
    &&& va.len() == reg.len()
    &&& vb.len() == reg.len()
    &&& flat_len(ga) <= weight(reg, va)
    &&& flat_len(gb) <= weight(reg, vb)
}

proof fn lemma_weight_mark(reg: Registry, v: Seq<bool>, i: int)
    requires
        0 <= i < v.len(),
        !v[i],
    ensures
        weight(reg, v.update(i, true)) == weight(reg, v) + reg.types@[i].type_params@.len(),
    decreases v.len(),
{
    let w = v.update(i, true);
    if i == v.len() - 1 {
        assert(w.drop_last() =~= v.drop_last());
    } else {
        assert(w.drop_last() =~= v.drop_last().update(i, true));
        lemma_weight_mark(reg, v.drop_last(), i);
    }
}

proof fn lemma_grows(reg: Registry, v: Seq<bool>, w: Seq<bool>)
    requires
        grows(v, w),
    ensures
        weight(reg, v) <= weight(reg, w),
        unvisited(w) <= unvisited(v),
    decreases v.len(),
{
    if v.len() > 0 {
        lemma_grows(reg, v.drop_last(), w.drop_last());
    }
}

proof fn lemma_grows_trans(u: Seq<bool>, v: Seq<bool>, w: Seq<bool>)
    requires
        grows(u, v),
        grows(v, w),
    ensures
        grows(u, w),
{
}

proof fn lemma_ctx_grows(
    reg: Registry,
    ga: Seq<Seq<u32>>,
    va: Seq<bool>,
    gb: Seq<Seq<u32>>,
    vb: Seq<bool>,
    va2: Seq<bool>,
    vb2: Seq<bool>,
)
    requires
        ctx_ok(reg, ga, va, gb, vb),
        grows(va, va2),
        grows(vb, vb2),
    ensures
        ctx_ok(reg, ga, va2, gb, vb2),
        unvisited2(va2, vb2) <= unvisited2(va, vb),
{
    lemma_grows(reg, va, va2);
    lemma_grows(reg, vb, vb2);
}

proof fn lemma_weight_total(reg: Registry, v: Seq<bool>)
    requires
        v.len() == reg.len(),
    ensures
        weight(reg, v) <= total_params(reg),
{
    lemma_grows(reg, v, Seq::new(reg.len(), |i: int| true));
}

proof fn lemma_bound_ids_len(p: Seq<TypeParam>)
    ensures
        bound_ids(p).len() <= p.len(),
    decreases p.len(),
{
    if p.len() > 0 {
        lemma_bound_ids_len(p.drop_last());
    }
}

proof fn lemma_flat_len_push(g: Seq<Seq<u32>>, x: Seq<u32>)
    ensures
        flat_len(g.push(x)) == flat_len(g) + x.len(),
{
    assert(g.push(x).drop_last() =~= g);
}

/// Whether two paths have the same segments.
pub(crate) fn paths_equal(a: &Vec<String>, b: &Vec<String>) -> (r: bool)
    ensures
        r == (path_view(a@) == path_view(b@)),
{
    if a.len() != b.len() {
        proof {
            assert(path_view(a@).len() != path_view(b@).len());
        }
        return false;
    }
    let mut i: usize = 0;
    while i < a.len()
        invariant
            a@.len() == b@.len(),
            0 <= i <= a@.len(),
            forall|k: int| 0 <= k < i ==> a@[k]@ == b@[k]@,
        decreases a@.len() - i,
    {
        if a[i] != b[i] {
            proof {
                assert(path_view(a@)[i as int] != path_view(b@)[i as int]);
            }
            return false;
        }
        i = i + 1;
    }
    proof {
        assert(path_view(a@) =~= path_view(b@));
    }
    true
}

fn opt_str_equal(a: &Option<String>, b: &Option<String>) -> (r: bool)
    ensures
        r == (opt_str_view(*a) == opt_str_view(*b)),
{
    match (a, b) {
        (Some(x), Some(y)) => x.eq(y),
        (None, None) => true,
        _ => false,
    }
}

fn param_names_equal(pa: &Vec<TypeParam>, pb: &Vec<TypeParam>) -> (r: bool)
    ensures
        r == param_names_match(pa@, pb@),
{
    let mut i: usize = 0;
    while i < pa.len() && i < pb.len()
        invariant
            0 <= i <= pa@.len(),
            i <= pb@.len(),
            forall|k: int| 0 <= k < i ==> #[trigger] pa@[k].name@ == pb@[k].name@,
        decreases pa@.len() - i,
    {
        if pa[i].name != pb[i].name {
            return false;
        }
        i = i + 1;
    }
    true
}

/// The scopes of both sides, each extended by the parameters its node declares.
fn extend_both(
    reg: &Registry,
    a: u32,
    ga: &GenericsList,
    va: &Vec<bool>,
    b: u32,
    gb: &GenericsList,
    vb: &Vec<bool>,
) -> (r: (GenericsList, GenericsList))
    requires
        ga.wf(),
        gb.wf(),
        reg.contains(a),
        reg.contains(b),
        va@.len() == reg.len(),
        vb@.len() == reg.len(),
        va@[a as int],
        vb@[b as int],
        total_params(*reg) <= usize::MAX,
        flat_len(ga@) + reg.node(a).type_params@.len() <= weight(*reg, va@),
        flat_len(gb@) + reg.node(b).type_params@.len() <= weight(*reg, vb@),
    ensures
        r.0.wf(),
        r.1.wf(),
        r.0@ == ga@.push(bound_ids(reg.node(a).type_params@)),
        r.1@ == gb@.push(bound_ids(reg.node(b).type_params@)),
        flat_len(r.0@) <= weight(*reg, va@),
        flat_len(r.1@) <= weight(*reg, vb@),
{
    proof {
        lemma_weight_total(*reg, va@);
        lemma_weight_total(*reg, vb@);
        lemma_bound_ids_len(reg.node(a).type_params@);
        lemma_bound_ids_len(reg.node(b).type_params@);
        lemma_flat_len_push(ga@, bound_ids(reg.node(a).type_params@));
        lemma_flat_len_push(gb@, bound_ids(reg.node(b).type_params@));
    }
    let ea = ga.extend(reg.types[a as usize].type_params.as_slice());
    let eb = gb.extend(reg.types[b as usize].type_params.as_slice());
    (ea, eb)
}


/// Whether `a` and `b` are structurally equal, given the generic scopes and visited
/// sets of both sides; marks what it visits.
fn types_equal_inner(
    reg: &Registry,
    a: u32,
    ga: &GenericsList,
    va: &mut Vec<bool>,
    b: u32,
    gb: &GenericsList,
    vb: &mut Vec<bool>,
) -> (r: bool)
    requires
        ctx_ok(*reg, ga@, old(va)@, gb@, old(vb)@),
        ga.wf(),
        gb.wf(),
        reg.contains(a),
        reg.contains(b),
    ensures
        (r, final(va)@, final(vb)@) == eq_ids(*reg, a, ga@, old(va)@, b, gb@, old(vb)@),
        grows(old(va)@, final(va)@),
        grows(old(vb)@, final(vb)@),
    decreases unvisited2(old(va)@, old(vb)@), 0nat,
{
    if a == b {
        return true;
    }
    let ghost va0 = va@;
    let ghost vb0 = vb@;
    let seen_a = va[a as usize];
    let seen_b = vb[b as usize];
    va.set(a as usize, true);
    vb.set(b as usize, true);
    if seen_a != seen_b {
        return false;
    }
    if seen_a {
        return true;
    }
    match (ga.index_for_type_id(a), gb.index_for_type_id(b)) {
        (Some(x), Some(y)) => {
            if x == y {
                return true;
            }
        },
        _ => {},
    }
    let na = &reg.types[a as usize];
    let nb = &reg.types[b as usize];
    if !paths_equal(&na.path, &nb.path) || !param_names_equal(&na.type_params, &nb.type_params) {
        return false;
    }
    proof {
        lemma_unvisited_mark(va0, a as int);
        lemma_unvisited_mark(vb0, b as int);
        lemma_weight_mark(*reg, va0, a as int);
        lemma_weight_mark(*reg, vb0, b as int);
        assert(grows(va0, va@));
        assert(grows(vb0, vb@));
        assert(shape_refs(na.shape) == shape_refs(reg.node(a).shape));
    }
    match (&na.shape, &nb.shape) {
        (Shape::Composite(fa), Shape::Composite(fb)) => {
            if fa.len() != fb.len() {
                return false;
            }
            proof {
                assert forall|k: int| 0 <= k < fa@.len() implies reg.contains(#[trigger] fa@[k].ty) by {
                    assert(shape_refs(na.shape).contains(fa@[k].ty));
                }
                assert forall|k: int| 0 <= k < fb@.len() implies reg.contains(#[trigger] fb@[k].ty) by {
                    assert(shape_refs(nb.shape).contains(fb@[k].ty));
                }
            }
            let (ea, eb) = extend_both(reg, a, ga, va, b, gb, vb);
            fields_equal(reg, fa, &ea, va, fb, &eb, vb)
        },
        (Shape::Variant(xa), Shape::Variant(xb)) => {
            if xa.len() != xb.len() {
                return false;
            }
            proof {
                assert forall|k: int, j: int|
                    0 <= k < xa@.len() && 0 <= j < xa@[k].fields@.len() implies reg.contains(
                    #[trigger] xa@[k].fields@[j].ty,
                ) by {
                    assert(shape_refs(na.shape).contains(xa@[k].fields@[j].ty));
                }
                assert forall|k: int, j: int|
                    0 <= k < xb@.len() && 0 <= j < xb@[k].fields@.len() implies reg.contains(
                    #[trigger] xb@[k].fields@[j].ty,
                ) by {
                    assert(shape_refs(nb.shape).contains(xb@[k].fields@[j].ty));
                }
            }
            let (ea, eb) = extend_both(reg, a, ga, va, b, gb, vb);
            variants_equal(reg, xa, &ea, va, xb, &eb, vb)
        },
        (Shape::Sequence(x), Shape::Sequence(y)) => {
            proof {
                assert(shape_refs(na.shape).contains(*x));
                assert(shape_refs(nb.shape).contains(*y));
            }
            let (ea, eb) = extend_both(reg, a, ga, va, b, gb, vb);
            types_equal_inner(reg, *x, &ea, va, *y, &eb, vb)
        },
        (Shape::Array(la, x), Shape::Array(lb, y)) => {
            if *la != *lb {
                return false;
            }
            proof {
                assert(shape_refs(na.shape).contains(*x));
                assert(shape_refs(nb.shape).contains(*y));
            }
            let (ea, eb) = extend_both(reg, a, ga, va, b, gb, vb);
            types_equal_inner(reg, *x, &ea, va, *y, &eb, vb)
        },
        (Shape::Tuple(xs), Shape::Tuple(ys)) => {
            if xs.len() != ys.len() {
                return false;
            }
            proof {
                assert forall|k: int| 0 <= k < xs@.len() implies reg.contains(#[trigger] xs@[k]) by {
                    assert(shape_refs(na.shape).contains(xs@[k]));
                }
                assert forall|k: int| 0 <= k < ys@.len() implies reg.contains(#[trigger] ys@[k]) by {
                    assert(shape_refs(nb.shape).contains(ys@[k]));
                }
            }
            let (ea, eb) = extend_both(reg, a, ga, va, b, gb, vb);
            ids_equal(reg, xs, &ea, va, ys, &eb, vb)
        },
        (Shape::Primitive(p), Shape::Primitive(q)) => *p == *q,
        (Shape::Compact(x), Shape::Compact(y)) => {
            proof {
                assert(shape_refs(na.shape).contains(*x));
                assert(shape_refs(nb.shape).contains(*y));
            }
            let (ea, eb) = extend_both(reg, a, ga, va, b, gb, vb);
            types_equal_inner(reg, *x, &ea, va, *y, &eb, vb)
        },
        (Shape::BitSequence(sa, oa), Shape::BitSequence(sb, ob)) => {
            proof {
                assert(shape_refs(na.shape).contains(*sa));
                assert(shape_refs(na.shape).contains(*oa));
                assert(shape_refs(nb.shape).contains(*sb));
                assert(shape_refs(nb.shape).contains(*ob));
            }
            let (ea, eb) = extend_both(reg, a, ga, va, b, gb, vb);
            let ghost va1 = va@;
            let ghost vb1 = vb@;
            let order_equal = types_equal_inner(reg, *oa, &ea, va, *ob, &eb, vb);
            let ghost xs = seq![*oa, *sa];
            let ghost ys = seq![*ob, *sb];
            proof {
                assert(xs[0] == *oa && xs[1] == *sa && ys[0] == *ob && ys[1] == *sb);
                lemma_ctx_grows(*reg, ea@, va1, eb@, vb1, va@, vb@);
            }
            if !order_equal {
                assert(ids_from(*reg, xs, ys, 0, ea@, va1, eb@, vb1) == (false, va@, vb@));
                return false;
            }
            let ghost va2 = va@;
            let ghost vb2 = vb@;
            let store_equal = types_equal_inner(reg, *sa, &ea, va, *sb, &eb, vb);
            proof {
                lemma_ctx_grows(*reg, ea@, va2, eb@, vb2, va@, vb@);
                lemma_grows_trans(va1, va2, va@);
                lemma_grows_trans(vb1, vb2, vb@);
                assert(ids_from(*reg, xs, ys, 2, ea@, va@, eb@, vb@) == (true, va@, vb@));
                assert(ids_from(*reg, xs, ys, 1, ea@, va2, eb@, vb2) == (store_equal, va@, vb@));
                assert(ids_from(*reg, xs, ys, 0, ea@, va1, eb@, vb1) == (store_equal, va@, vb@));
            }
            store_equal
        },
        _ => false,
    }
}

/// Compares two field lists of equal length, position by position.
fn fields_equal(
    reg: &Registry,
    fa: &Vec<Field>,
    ga: &GenericsList,
    va: &mut Vec<bool>,
    fb: &Vec<Field>,
    gb: &GenericsList,
    vb: &mut Vec<bool>,
) -> (r: bool)
    requires
        ctx_ok(*reg, ga@, old(va)@, gb@, old(vb)@),
        ga.wf(),
        gb.wf(),
        fa@.len() == fb@.len(),
        forall|k: int| 0 <= k < fa@.len() ==> reg.contains(#[trigger] fa@[k].ty),
        forall|k: int| 0 <= k < fb@.len() ==> reg.contains(#[trigger] fb@[k].ty),
    ensures
        (r, final(va)@, final(vb)@) == fields_from(*reg, fa@, fb@, 0, ga@, old(va)@, gb@, old(vb)@),
        grows(old(va)@, final(va)@),
        grows(old(vb)@, final(vb)@),
    decreases unvisited2(old(va)@, old(vb)@), 1nat,
{
    let ghost va0 = va@;
    let ghost vb0 = vb@;
    let mut i: usize = 0;
    while i < fa.len()
        invariant
            0 <= i <= fa@.len(),
            fa@.len() == fb@.len(),
            forall|k: int| 0 <= k < fa@.len() ==> reg.contains(#[trigger] fa@[k].ty),
            forall|k: int| 0 <= k < fb@.len() ==> reg.contains(#[trigger] fb@[k].ty),
            ga.wf(),
            gb.wf(),
            ctx_ok(*reg, ga@, va@, gb@, vb@),
            va0 == old(va)@,
            vb0 == old(vb)@,
            grows(va0, va@),
            grows(vb0, vb@),
            unvisited2(va@, vb@) <= unvisited2(va0, vb0),
            fields_from(*reg, fa@, fb@, 0, ga@, va0, gb@, vb0) == fields_from(
                *reg,
                fa@,
                fb@,
                i as int,
                ga@,
                va@,
                gb@,
                vb@,
            ),
        decreases fa@.len() - i,
    {
        let fx = &fa[i];
        let fy = &fb[i];
        if !opt_str_equal(&fx.name, &fy.name) || !opt_str_equal(&fx.ty_name, &fy.ty_name) {
            return false;
        }
        let ghost va1 = va@;
        let ghost vb1 = vb@;
        let r = types_equal_inner(reg, fx.ty, ga, va, fy.ty, gb, vb);
        proof {
            lemma_ctx_grows(*reg, ga@, va1, gb@, vb1, va@, vb@);
            lemma_grows_trans(va0, va1, va@);
            lemma_grows_trans(vb0, vb1, vb@);
        }
        if !r {
            return false;
        }
        i = i + 1;
    }
    true
}

/// Compares two lists of type identifiers of equal length, position by position.
fn ids_equal(
    reg: &Registry,
    xs: &Vec<u32>,
    ga: &GenericsList,
    va: &mut Vec<bool>,
    ys: &Vec<u32>,
    gb: &GenericsList,
    vb: &mut Vec<bool>,
) -> (r: bool)
    requires
        ctx_ok(*reg, ga@, old(va)@, gb@, old(vb)@),
        ga.wf(),
        gb.wf(),
        xs@.len() == ys@.len(),
        forall|k: int| 0 <= k < xs@.len() ==> reg.contains(#[trigger] xs@[k]),
        forall|k: int| 0 <= k < ys@.len() ==> reg.contains(#[trigger] ys@[k]),
    ensures
        (r, final(va)@, final(vb)@) == ids_from(*reg, xs@, ys@, 0, ga@, old(va)@, gb@, old(vb)@),
        grows(old(va)@, final(va)@),
        grows(old(vb)@, final(vb)@),
    decreases unvisited2(old(va)@, old(vb)@), 1nat,
{
    let ghost va0 = va@;
    let ghost vb0 = vb@;
    let mut i: usize = 0;
    while i < xs.len()
        invariant
            0 <= i <= xs@.len(),
            xs@.len() == ys@.len(),
            forall|k: int| 0 <= k < xs@.len() ==> reg.contains(#[trigger] xs@[k]),
            forall|k: int| 0 <= k < ys@.len() ==> reg.contains(#[trigger] ys@[k]),
            ga.wf(),
            gb.wf(),
            ctx_ok(*reg, ga@, va@, gb@, vb@),
            va0 == old(va)@,
            vb0 == old(vb)@,
            grows(va0, va@),
            grows(vb0, vb@),
            unvisited2(va@, vb@) <= unvisited2(va0, vb0),
            ids_from(*reg, xs@, ys@, 0, ga@, va0, gb@, vb0) == ids_from(
                *reg,
                xs@,
                ys@,
                i as int,
                ga@,
                va@,
                gb@,
                vb@,
            ),
        decreases xs@.len() - i,
    {
        let ghost va1 = va@;
        let ghost vb1 = vb@;
        let r = types_equal_inner(reg, xs[i], ga, va, ys[i], gb, vb);
        proof {
            lemma_ctx_grows(*reg, ga@, va1, gb@, vb1, va@, vb@);
            lemma_grows_trans(va0, va1, va@);
            lemma_grows_trans(vb0, vb1, vb@);
        }
        if !r {
            return false;
        }
        i = i + 1;
    }
    true
}

/// Compares two variant lists of equal length, position by position.
fn variants_equal(
    reg: &Registry,
    xa: &Vec<Variant>,
    ga: &GenericsList,
    va: &mut Vec<bool>,
    xb: &Vec<Variant>,
    gb: &GenericsList,
    vb: &mut Vec<bool>,
) -> (r: bool)
    requires
        ctx_ok(*reg, ga@, old(va)@, gb@, old(vb)@),
        ga.wf(),
        gb.wf(),
        xa@.len() == xb@.len(),
        forall|k: int, j: int|
            0 <= k < xa@.len() && 0 <= j < xa@[k].fields@.len() ==> reg.contains(
                #[trigger] xa@[k].fields@[j].ty,
            ),
        forall|k: int, j: int|
            0 <= k < xb@.len() && 0 <= j < xb@[k].fields@.len() ==> reg.contains(
                #[trigger] xb@[k].fields@[j].ty,
            ),
    ensures
        (r, final(va)@, final(vb)@) == variants_from(*reg, xa@, xb@, 0, ga@, old(va)@, gb@, old(vb)@),
        grows(old(va)@, final(va)@),
        grows(old(vb)@, final(vb)@),
    decreases unvisited2(old(va)@, old(vb)@), 2nat,
{
    let ghost va0 = va@;
    let ghost vb0 = vb@;
    let mut i: usize = 0;
    while i < xa.len()
        invariant
            0 <= i <= xa@.len(),
            xa@.len() == xb@.len(),
            forall|k: int, j: int|
                0 <= k < xa@.len() && 0 <= j < xa@[k].fields@.len() ==> reg.contains(
                    #[trigger] xa@[k].fields@[j].ty,
                ),
            forall|k: int, j: int|
                0 <= k < xb@.len() && 0 <= j < xb@[k].fields@.len() ==> reg.contains(
                    #[trigger] xb@[k].fields@[j].ty,
                ),
            ga.wf(),
            gb.wf(),
            ctx_ok(*reg, ga@, va@, gb@, vb@),
            va0 == old(va)@,
            vb0 == old(vb)@,
            grows(va0, va@),
            grows(vb0, vb@),
            unvisited2(va@, vb@) <= unvisited2(va0, vb0),
            variants_from(*reg, xa@, xb@, 0, ga@, va0, gb@, vb0) == variants_from(
                *reg,
                xa@,
                xb@,
                i as int,
                ga@,
                va@,
                gb@,
                vb@,
            ),
        decreases xa@.len() - i,
    {
        let x = &xa[i];
        let y = &xb[i];
        if x.name != y.name || x.index != y.index || x.fields.len() != y.fields.len() {
            return false;
        }
        let ghost va1 = va@;
        let ghost vb1 = vb@;
        let r = fields_equal(reg, &x.fields, ga, va, &y.fields, gb, vb);
        proof {
            lemma_ctx_grows(*reg, ga@, va1, gb@, vb1, va@, vb@);
            lemma_grows_trans(va0, va1, va@);
            lemma_grows_trans(vb0, vb1, vb@);
        }
        if !r {
            return false;
        }
        i = i + 1;
    }
    true
}


fn none_visited_vec(n: usize) -> (r: Vec<bool>)
    ensures
        r@ == none_visited(n as nat),
{
    let mut r: Vec<bool> = Vec::new();
    let mut i: usize = 0;
    while i < n
        invariant
            0 <= i <= n,
            r@ == none_visited(i as nat),
        decreases n - i,
    {
        r.push(false);
        i = i + 1;
        proof {
            assert(r@ =~= none_visited(i as nat));
        }
    }
    r
}

/// Whether two types of the registry have the same shape once generic positions
/// are accounted for: the same path, parameter names and shape, with the types
/// they refer to equal in turn, where two types bound to the same generic position
/// count as equal.
pub fn types_equal(a: u32, b: u32, types: &Registry) -> (r: bool)
    requires
        types.well_formed(),
        types.contains(a),
        types.contains(b),
        total_params(*types) <= usize::MAX,
    ensures
        r == types_equal_spec(*types, a, b),
{
    let n = types.types.len();
    let mut a_visited = none_visited_vec(n);
    let mut b_visited = none_visited_vec(n);
    let ga = GenericsList::empty();
    let gb = GenericsList::empty();
    proof {
        assert(flat_len(seq![Seq::<u32>::empty()]) == 0) by {
            assert(seq![Seq::<u32>::empty()].drop_last() =~= Seq::<Seq<u32>>::empty());
            assert(flat_len(Seq::<Seq<u32>>::empty()) == 0);
        }
    }
    types_equal_inner(types, a, &ga, &mut a_visited, b, &gb, &mut b_visited)
}

} // verus!

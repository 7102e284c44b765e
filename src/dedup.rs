use crate::equality::{total_params, types_equal, types_equal_spec};
use crate::registry::{path_view, Registry};
use vstd::prelude::*;

verus! {

/// Groups of same-path types: the path, then one representative (the first member)
/// of each structurally distinct subgroup, in the order they were first met.
pub type PathGroups = Seq<(Seq<Seq<char>>, Seq<u32>)>;

/// The position of the group for path `p`, or the number of groups if there is none.
pub open spec fn find_group(gs: PathGroups, p: Seq<Seq<char>>) -> int
    decreases gs.len(),
{
    if gs.len() == 0 {
        0
    } else if gs[0].0 == p {
        0
    } else {
        1 + find_group(gs.drop_first(), p)
    }
}

/// The position of the first representative that `id` is structurally equal to,
/// or the number of representatives if there is none.
pub open spec fn find_shape(reg: Registry, reps: Seq<u32>, id: u32) -> int
    decreases reps.len(),
{
    if reps.len() == 0 {
        0
    } else if types_equal_spec(reg, id, reps[0]) {
        0
    } else {
        1 + find_shape(reg, reps.drop_first(), id)
    }
}

/// The groups formed by the first `n` types; types without a namespace (a path of at
/// most one segment, as built-in and prelude types have) take no part.
pub open spec fn groups_upto(reg: Registry, n: nat) -> PathGroups
    decreases n,
{
    if n == 0 {
        Seq::empty()
    } else {
        let gs = groups_upto(reg, (n - 1) as nat);
        let id = (n - 1) as u32;
        let p = path_view(reg.types@[n - 1].path@);
        if p.len() <= 1 {
            gs
        } else {
            let g = find_group(gs, p);
            if g == gs.len() {
                gs.push((p, seq![id]))
            } else {
                let reps = gs[g].1;
                if find_shape(reg, reps, id) == reps.len() {
                    gs.update(g, (p, reps.push(id)))
                } else {
                    gs
                }
            }
        }
    }
}

/// The group and subgroup that type `i` falls into.
pub open spec fn assignment(reg: Registry, i: int) -> (int, int) {
    let gs = groups_upto(reg, i as nat);
    let g = find_group(gs, path_view(reg.types@[i].path@));
    if g == gs.len() {
        (g, 0)
    } else {
        (g, find_shape(reg, gs[g].1, i as u32))
    }
}

pub open spec fn digit(d: nat) -> char {
    if d == 0 { '0' }
    else if d == 1 { '1' }
    else if d == 2 { '2' }
    else if d == 3 { '3' }
    else if d == 4 { '4' }
    else if d == 5 { '5' }
    else if d == 6 { '6' }
    else if d == 7 { '7' }
    else if d == 8 { '8' }
    else { '9' }
}

/// The decimal digits of `n`, without leading zeros.
pub open spec fn decimal(n: nat) -> Seq<char>
    decreases n,
{
    if n < 10 {
        seq![digit(n)]
    } else {
        decimal(n / 10).push(digit(n % 10))
    }
}

/// The path of type `i` after deduplication: where its path is shared by
/// structurally different types, the last segment gets the 1-based number of the
/// type's subgroup.
pub open spec fn deduped_path(reg: Registry, i: int) -> Seq<Seq<char>> {
    let p = path_view(reg.types@[i].path@);
    if p.len() <= 1 {
        p
    } else {
        let (g, k) = assignment(reg, i);
        if groups_upto(reg, reg.len())[g].1.len() > 1 {
            p.update(p.len() - 1, p.last() + decimal((k + 1) as nat))
        } else {
            p
        }
    }
}

/// Relies on `format!` with `usize`'s `Display`: the name followed by the decimal digits of `n`.
#[verifier::external_body]
fn with_suffix(name: &String, n: usize) -> (r: String)
    ensures
        r@ == name@ + decimal(n as nat),
{
    format!("{}{}", name, n)
}

fn set_last_segment(types: &mut Registry, i: usize, s: String)
    requires
        i < old(types).types@.len(),
        old(types).types@[i as int].path@.len() > 0,
    ensures
        final(types).types@.len() == old(types).types@.len(),
        forall|j: int| 0 <= j < old(types).types@.len() && j != i ==> final(types).types@[j] == old(types).types@[j],
        final(types).types@[i as int].shape == old(types).types@[i as int].shape,
        final(types).types@[i as int].type_params == old(types).types@[i as int].type_params,
        final(types).types@[i as int].path@ == old(types).types@[i as int].path@.update(
            old(types).types@[i as int].path@.len() - 1,
            s,
        ),
{
    let last = types.types[i].path.len() - 1;
    types.types[i].path.set(last, s);
}


/// The groups as paths and representatives, where each group names its path by the
/// first type that has it.
pub open spec fn groups_view(reg: Registry, eg: Seq<(usize, Vec<u32>)>) -> PathGroups {
    eg.map_values(|e: (usize, Vec<u32>)| (path_view(reg.types@[e.0 as int].path@), e.1@))
}

proof fn lemma_find_group(gs: PathGroups, p: Seq<Seq<char>>, g: int)
    requires
        0 <= g <= gs.len(),
        forall|h: int| 0 <= h < g ==> gs[h].0 != p,
        g < gs.len() ==> gs[g].0 == p,
    ensures
        find_group(gs, p) == g,
    decreases g,
{
    if g > 0 {
        lemma_find_group(gs.drop_first(), p, g - 1);
    } else if gs.len() == 0 {
    }
}

proof fn lemma_find_shape(reg: Registry, reps: Seq<u32>, id: u32, k: int)
    requires
        0 <= k <= reps.len(),
        forall|h: int| 0 <= h < k ==> !types_equal_spec(reg, id, reps[h]),
        k < reps.len() ==> types_equal_spec(reg, id, reps[k]),
    ensures
        find_shape(reg, reps, id) == k,
    decreases k,
{
    if k > 0 {
        lemma_find_shape(reg, reps.drop_first(), id, k - 1);
    }
}

proof fn lemma_find_group_range(gs: PathGroups, p: Seq<Seq<char>>)
    ensures
        0 <= find_group(gs, p) <= gs.len(),
    decreases gs.len(),
{
    if gs.len() > 0 {
        lemma_find_group_range(gs.drop_first(), p);
    }
}

proof fn lemma_find_shape_range(reg: Registry, reps: Seq<u32>, id: u32)
    ensures
        0 <= find_shape(reg, reps, id) <= reps.len(),
    decreases reps.len(),
{
    if reps.len() > 0 {
        lemma_find_shape_range(reg, reps.drop_first(), id);
    }
}

/// Groups are only added, and subgroups only added to.
proof fn lemma_groups_grow(reg: Registry, m: nat, n: nat)
    requires
        m <= n <= reg.len(),
    ensures
        groups_upto(reg, m).len() <= groups_upto(reg, n).len(),
        forall|g: int|
            0 <= g < groups_upto(reg, m).len() ==> #[trigger] groups_upto(reg, m)[g].1.len()
                <= groups_upto(reg, n)[g].1.len(),
    decreases n - m,
{
    if m < n {
        lemma_groups_grow(reg, m, (n - 1) as nat);
        let gs = groups_upto(reg, (n - 1) as nat);
        let p = path_view(reg.types@[n - 1].path@);
        lemma_find_group_range(gs, p);
    }
}

/// The group and subgroup of a type with a namespace exist in the final groups.
proof fn lemma_assignment_range(reg: Registry, j: int)
    requires
        0 <= j < reg.len(),
        reg.types@[j].path@.len() > 1,
    ensures
        0 <= assignment(reg, j).0 < groups_upto(reg, reg.len()).len(),
        0 <= assignment(reg, j).1 < groups_upto(reg, reg.len())[assignment(reg, j).0].1.len(),
{
    let gs = groups_upto(reg, j as nat);
    let p = path_view(reg.types@[j].path@);
    lemma_find_group_range(gs, p);
    let g = find_group(gs, p);
    if g < gs.len() {
        lemma_find_shape_range(reg, gs[g].1, j as u32);
    }
    assert(groups_upto(reg, (j + 1) as nat) == {
        if g == gs.len() {
            gs.push((p, seq![j as u32]))
        } else {
            let reps = gs[g].1;
            if find_shape(reg, reps, j as u32) == reps.len() {
                gs.update(g, (p, reps.push(j as u32)))
            } else {
                gs
            }
        }
    });
    lemma_groups_grow(reg, (j + 1) as nat, reg.len());
    let g1 = groups_upto(reg, (j + 1) as nat);
    assert(g1[g].1.len() <= groups_upto(reg, reg.len())[g].1.len());
}

/// Groups the types of the registry by path, and each group by structural equality;
/// also returns, for each type with a namespace, its group and subgroup.
fn group_by_shape(types: &Registry) -> (r: (Vec<(usize, Vec<u32>)>, Vec<(usize, usize)>))
    requires
        types.well_formed(),
        total_params(*types) <= usize::MAX,
    ensures
        groups_view(*types, r.0@) == groups_upto(*types, types.len()),
        r.1@.len() == types.len(),
        forall|j: int|
            0 <= j < types.len() && types.types@[j].path@.len() > 1 ==> r.1@[j].0 as int == assignment(
                *types,
                j,
            ).0 && r.1@[j].1 as int == assignment(*types, j).1,
{
    let n = types.types.len();
    let mut groups: Vec<(usize, Vec<u32>)> = Vec::new();
    let mut assign: Vec<(usize, usize)> = Vec::new();
    let mut id: usize = 0;
    while id < n
        invariant
            n == types.len(),
            types.well_formed(),
            total_params(*types) <= usize::MAX,
            0 <= id <= n,
            groups_view(*types, groups@) == groups_upto(*types, id as nat),
            forall|g: int| 0 <= g < groups@.len() ==> (groups@[g].0 as int) < n,
            forall|g: int, k: int|
                0 <= g < groups@.len() && 0 <= k < groups@[g].1@.len() ==> (groups@[g].1@[k] as int) < id,
            assign@.len() == id,
            forall|j: int|
                0 <= j < id && types.types@[j].path@.len() > 1 ==> assign@[j].0 as int == assignment(
                    *types,
                    j,
                ).0 && assign@[j].1 as int == assignment(*types, j).1,
        decreases n - id,
    {
        let ghost gs = groups_view(*types, groups@);
        let ghost p = path_view(types.types@[id as int].path@);
        assert(groups_upto(*types, (id + 1) as nat) == {
            let gs = groups_upto(*types, id as nat);
            let p = path_view(types.types@[id as int].path@);
            if p.len() <= 1 {
                gs
            } else {
                let g = find_group(gs, p);
                if g == gs.len() {
                    gs.push((p, seq![id as u32]))
                } else {
                    let reps = gs[g].1;
                    if find_shape(*types, reps, id as u32) == reps.len() {
                        gs.update(g, (p, reps.push(id as u32)))
                    } else {
                        gs
                    }
                }
            }
        });
        if types.types[id].path.len() <= 1 {
            assign.push((0, 0));
            id = id + 1;
            continue;
        }
        let mut g: usize = 0;
        while g < groups.len()
            invariant
                n == types.len(),
                0 <= id < n,
                gs == groups_view(*types, groups@),
                p == path_view(types.types@[id as int].path@),
                forall|h: int| 0 <= h < groups@.len() ==> (groups@[h].0 as int) < n,
                0 <= g <= groups@.len(),
                forall|h: int| 0 <= h < g ==> gs[h].0 != p,
            ensures
                0 <= g <= groups@.len(),
                forall|h: int| 0 <= h < g ==> gs[h].0 != p,
                g < groups@.len() ==> gs[g as int].0 == p,
            decreases groups@.len() - g,
        {
            if paths_equal_at(types, groups[g].0, id) {
                break;
            }
            g = g + 1;
        }
        proof {
            lemma_find_group(gs, p, g as int);
        }
        if g == groups.len() {
            let mut reps: Vec<u32> = Vec::new();
            reps.push(id as u32);
            groups.push((id, reps));
            assign.push((g, 0));
            proof {
                assert(groups_view(*types, groups@) =~= gs.push((p, seq![id as u32])));
            }
        } else {
            let ghost reps0 = gs[g as int].1;
            let mut k: usize = 0;
            while k < groups[g].1.len()
                invariant
                    n == types.len(),
                    types.well_formed(),
                    total_params(*types) <= usize::MAX,
                    0 <= id < n,
                    0 <= g < groups@.len(),
                    reps0 == groups@[g as int].1@,
                    forall|h: int| 0 <= h < reps0.len() ==> (reps0[h] as int) < id,
                    0 <= k <= reps0.len(),
                    forall|h: int| 0 <= h < k ==> !types_equal_spec(*types, id as u32, reps0[h]),
                ensures
                    0 <= k <= reps0.len(),
                    forall|h: int| 0 <= h < k ==> !types_equal_spec(*types, id as u32, reps0[h]),
                    k < reps0.len() ==> types_equal_spec(*types, id as u32, reps0[k as int]),
                decreases reps0.len() - k,
            {
                if types_equal(id as u32, groups[g].1[k], types) {
                    break;
                }
                k = k + 1;
            }
            proof {
                lemma_find_shape(*types, reps0, id as u32, k as int);
            }
            if k == groups[g].1.len() {
                groups[g].1.push(id as u32);
                proof {
                    assert(groups_view(*types, groups@) =~= gs.update(g as int, (p, reps0.push(id as u32))));
                }
            }
            assign.push((g, k));
        }
        id = id + 1;
    }
    (groups, assign)
}

/// Whether types `i` and `j` have the same path.
fn paths_equal_at(types: &Registry, i: usize, j: usize) -> (r: bool)
    requires
        i < types.len(),
        j < types.len(),
    ensures
        r == (path_view(types.types@[i as int].path@) == path_view(types.types@[j as int].path@)),
{
    crate::equality::paths_equal(&types.types[i].path, &types.types[j].path)
}


/// Tells apart structurally different types that share a path with a namespace:
/// the types with that path are split into structurally equal subgroups, in the
/// order each subgroup was first met, and where there is more than one subgroup
/// the last segment of each member's path gets the subgroup's 1-based number.
/// Members of one subgroup keep sharing their path. Nothing else changes.
pub fn ensure_unique_type_paths(types: &mut Registry)
    requires
        old(types).well_formed(),
        total_params(*old(types)) <= usize::MAX,
    ensures
        final(types).types@.len() == old(types).types@.len(),
        forall|i: int|
            0 <= i < old(types).types@.len() ==> path_view(#[trigger] final(types).types@[i].path@)
                == deduped_path(*old(types), i),
        forall|i: int|
            0 <= i < old(types).types@.len() ==> (#[trigger] final(types).types@[i]).shape == old(
                types,
            ).types@[i].shape && final(types).types@[i].type_params == old(types).types@[i].type_params,
{
    let ghost reg0 = *types;
    let (groups, assign) = group_by_shape(types);
    let n = types.types.len();
    let mut i: usize = 0;
    while i < n
        invariant
            n == reg0.len(),
            0 <= i <= n,
            groups_view(reg0, groups@) == groups_upto(reg0, reg0.len()),
            assign@.len() == n,
            forall|j: int|
                0 <= j < n && reg0.types@[j].path@.len() > 1 ==> assign@[j].0 as int == assignment(
                    reg0,
                    j,
                ).0 && assign@[j].1 as int == assignment(reg0, j).1,
            types.types@.len() == n,
            forall|j: int| 0 <= j < i ==> path_view(#[trigger] types.types@[j].path@) == deduped_path(reg0, j),
            forall|j: int| i <= j < n ==> #[trigger] types.types@[j] == reg0.types@[j],
            forall|j: int|
                0 <= j < n ==> (#[trigger] types.types@[j]).shape == reg0.types@[j].shape
                    && types.types@[j].type_params == reg0.types@[j].type_params,
        decreases n - i,
    {
        let len = types.types[i].path.len();
        if len > 1 {
            let (g, k) = assign[i];
            proof {
                lemma_assignment_range(reg0, i as int);
                assert(groups_view(reg0, groups@)[g as int] == (
                    path_view(reg0.types@[groups@[g as int].0 as int].path@),
                    groups@[g as int].1@,
                ));
            }
            if groups[g].1.len() > 1 {
                let name = with_suffix(&types.types[i].path[len - 1], k + 1);
                set_last_segment(types, i, name);
                proof {
                    assert(path_view(types.types@[i as int].path@) =~= deduped_path(reg0, i as int));
                }
            } else {
                proof {
                    assert(path_view(types.types@[i as int].path@) =~= deduped_path(reg0, i as int));
                }
            }
        }
        i = i + 1;
    }
}

} // verus!

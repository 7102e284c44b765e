use crate::registry::TypeParam;
use std::rc::Rc;
use vstd::prelude::*;

verus! {

/// The number of bindings over all levels.
pub open spec fn flat_len(levels: Seq<Seq<u32>>) -> nat
    decreases levels.len(),
{
    if levels.len() == 0 {
        0
    } else {
        flat_len(levels.drop_last()) + levels.last().len()
    }
}

/// The position of the first occurrence of `id` in `s`.
pub open spec fn first_index(s: Seq<u32>, id: u32) -> Option<int>
    decreases s.len(),
{
    if s.len() == 0 {
        None
    } else if s[0] == id {
        Some(0)
    } else {
        match first_index(s.drop_first(), id) {
            Some(i) => Some(i + 1),
            None => None,
        }
    }
}

/// The generic position that `id` takes in a chain of levels: the innermost level
/// that binds it decides, and positions count across all levels, outermost first.
pub open spec fn slot_of(levels: Seq<Seq<u32>>, id: u32) -> Option<int>
    decreases levels.len(),
{
    if levels.len() == 0 {
        None
    } else {
        match first_index(levels.last(), id) {
            Some(i) => Some(flat_len(levels.drop_last()) + i),
            None => slot_of(levels.drop_last(), id),
        }
    }
}

/// The types that a list of declared parameters is bound to, unbound ones left out.
pub open spec fn bound_ids(params: Seq<TypeParam>) -> Seq<u32>
    decreases params.len(),
{
    if params.len() == 0 {
        Seq::empty()
    } else {
        let rest = bound_ids(params.drop_last());
        match params.last().ty {
            Some(t) => rest.push(t),
            None => rest,
        }
    }
}

/// A persistent chain of generic-parameter bindings, one link per nesting level.
/// Links are shared between the chains derived from them and never mutated.
pub struct GenericsList {
    inner: Rc<GenericsLink>,
}

struct GenericsLink {
    previous: Option<GenericsList>,
    start_idx: usize,
    generics_by_id: Vec<u32>,
}

impl View for GenericsList {
    /// The bindings of each level, outermost first.
    type V = Seq<Seq<u32>>;

    closed spec fn view(&self) -> Seq<Seq<u32>>
        decreases self,
    {
        match &self.inner.previous {
            Some(prev) => prev.view().push(self.inner.generics_by_id@),
            None => seq![self.inner.generics_by_id@],
        }
    }
}

impl GenericsList {
    /// Each link starts where the bindings of the levels before it end.
    pub closed spec fn wf(&self) -> bool
        decreases self,
    {
        &&& flat_len(self@) <= usize::MAX
        &&& match &self.inner.previous {
            Some(prev) => prev.wf() && self.inner.start_idx == flat_len(prev@),
            None => self.inner.start_idx == 0,
        }
    }

    /// Return the position of a generic bound to `type_id`, or `None` if no level binds it.
    pub fn index_for_type_id(&self, type_id: u32) -> (r: Option<usize>)
        requires
            self.wf(),
        ensures
            r matches Some(i) ==> slot_of(self@, type_id) == Some(i as int),
            r is None ==> slot_of(self@, type_id) is None,
        decreases self@.len(),
    {
        proof { self.lemma_link(); }
        let ids = &self.inner.generics_by_id;
        let mut i: usize = 0;
        while i < ids.len()
            invariant
                0 <= i <= ids@.len(),
                forall|k: int| 0 <= k < i ==> ids@[k] != type_id,
                self@.len() >= 1,
                ids@ == self@.last(),
                self.inner.start_idx == flat_len(self@.drop_last()),
                self.inner.start_idx + ids@.len() <= usize::MAX,
            decreases ids@.len() - i,
        {
            if ids[i] == type_id {
                proof {
                    lemma_first_index_at(ids@, type_id, i as int);
                    assert(slot_of(self@, type_id) == Some(self.inner.start_idx + i));
                }
                return Some(self.inner.start_idx + i);
            }
            i = i + 1;
        }
        proof { lemma_first_index_none(ids@, type_id); }
        match &self.inner.previous {
            Some(prev) => {
                assert(slot_of(self@, type_id) == slot_of(prev@, type_id));
                prev.index_for_type_id(type_id)
            },
            None => {
                assert(slot_of(self@, type_id) == slot_of(Seq::<Seq<u32>>::empty(), type_id));
                None
            },
        }
    }

    /// A chain of one level that binds nothing.
    pub fn empty() -> (r: Self)
        ensures
            r.wf(),
            r@ == seq![Seq::<u32>::empty()],
    {
        Self::new_inner(None, &[])
    }

    /// A chain that adds one level, binding the given parameters, to this one.
    pub fn extend(&self, params: &[TypeParam]) -> (r: Self)
        requires
            self.wf(),
            flat_len(self@) + params@.len() <= usize::MAX,
        ensures
            r.wf(),
            r@ == self@.push(bound_ids(params@)),
    {
        Self::new_inner(Some(self.share()), params)
    }

    fn new_inner(maybe_self: Option<GenericsList>, params: &[TypeParam]) -> (r: Self)
        requires
            maybe_self matches Some(l) ==> l.wf() && flat_len(l@) + params@.len() <= usize::MAX,
            maybe_self is None ==> params@.len() <= usize::MAX,
        ensures
            r.wf(),
            maybe_self matches Some(l) ==> r@ == l@.push(bound_ids(params@)),
            maybe_self is None ==> r@ == seq![bound_ids(params@)],
    {
        let mut generics_by_id: Vec<u32> = Vec::new();
        let mut i: usize = 0;
        while i < params.len()
            invariant
                0 <= i <= params@.len(),
                generics_by_id@ == bound_ids(params@.subrange(0, i as int)),
                generics_by_id@.len() <= i,
            decreases params@.len() - i,
        {
            proof {
                assert(params@.subrange(0, i as int + 1).drop_last() =~= params@.subrange(0, i as int));
            }
            match params[i].ty {
                Some(t) => generics_by_id.push(t),
                None => {},
            }
            i = i + 1;
        }
        assert(params@.subrange(0, params@.len() as int) =~= params@);
        let ghost prev = maybe_self;
        proof {
            if let Some(l) = prev {
                l.lemma_link();
            }
        }
        let start_idx = match &maybe_self {
            Some(list) => list.inner.start_idx + list.inner.generics_by_id.len(),
            None => 0,
        };
        let r = GenericsList {
            inner: Rc::new(GenericsLink { previous: maybe_self, start_idx, generics_by_id }),
        };
        proof {
            match prev {
                Some(l) => {
                    assert(r@.drop_last() =~= l@);
                },
                None => {
                    assert(r@.drop_last() =~= Seq::<Seq<u32>>::empty());
                    assert(flat_len(Seq::<Seq<u32>>::empty()) == 0);
                },
            }
        }
        r
    }

    proof fn lemma_link(&self)
        requires
            self.wf(),
        ensures
            self@.len() >= 1,
            self@.last() == self.inner.generics_by_id@,
            self.inner.start_idx == flat_len(self@.drop_last()),
            self.inner.start_idx + self.inner.generics_by_id@.len() == flat_len(self@),
            flat_len(self@) <= usize::MAX,
            self.inner.previous matches Some(p) ==> self@.drop_last() == p@ && p.wf(),
            self.inner.previous is None ==> self@.drop_last() == Seq::<Seq<u32>>::empty(),
    {
        match &self.inner.previous {
            Some(prev) => {
                assert(self@.drop_last() =~= prev@);
            },
            None => {
                assert(self@.drop_last() =~= Seq::<Seq<u32>>::empty());
                assert(flat_len(Seq::<Seq<u32>>::empty()) == 0);
            },
        }
    }

    /// Relies on `Rc::clone`: the copy points at the same link.
    #[verifier::external_body]
    fn share(&self) -> (r: Self)
        ensures
            r == *self,
    {
        GenericsList { inner: Rc::clone(&self.inner) }
    }
}

pub(crate) proof fn lemma_first_index_at(s: Seq<u32>, id: u32, i: int)
    requires
        0 <= i < s.len(),
        s[i] == id,
        forall|k: int| 0 <= k < i ==> s[k] != id,
    ensures
        first_index(s, id) == Some(i),
    decreases i,
{
    if i > 0 {
        lemma_first_index_at(s.drop_first(), id, i - 1);
    }
}

proof fn lemma_first_index_none(s: Seq<u32>, id: u32)
    requires
        forall|k: int| 0 <= k < s.len() ==> s[k] != id,
    ensures
        first_index(s, id) is None,
    decreases s.len(),
{
    if s.len() > 0 {
        lemma_first_index_none(s.drop_first(), id);
    }
}

} // verus!

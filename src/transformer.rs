use crate::error::TypegenError;
use crate::registry::{Registry, Shape, TypeNode};
use std::collections::HashMap;
use vstd::prelude::*;

verus! {

/// The state of one type identifier in a session's cache.
pub enum Cached<R> {
    /// Resolution has started and not finished.
    Recursive,
    /// Resolution has finished with this value.
    Computed(R),
}

/// Where the resolution of a type starts.
pub enum Lookup<R> {
    /// The type is not in the registry.
    NotFound,
    /// The type is being resolved.
    InProgress,
    /// The type was resolved to this value.
    Computed(R),
    /// The type has not been met in this session.
    Fresh,
}

/// The rules a session follows. Implementations call `cache.resolve(session, id)`
/// to recurse into the types a type depends on.
pub trait TransformPolicy<R: Clone, S>: Sized {
    /// Produces the representation of a type that has just been marked as being
    /// resolved; `ty` is the type's node.
    fn compute<'a>(
        self,
        type_id: u32,
        ty: &TypeNode,
        session: &Session<'a, S, Self>,
        cache: &mut Cache<R>,
    ) -> Result<R, TypegenError>
        requires
            *ty == session.registry().node(type_id),
            old(cache)@.contains_key(type_id),
            old(cache)@[type_id] is Recursive,
    ;

    /// Called when a type is met again while it is still being resolved. `Some`
    /// ends the resolution with that result; `None` resolves the type once more.
    fn on_cycle<'a>(
        self,
        type_id: u32,
        ty: &TypeNode,
        session: &Session<'a, S, Self>,
        cache: &mut Cache<R>,
    ) -> Option<Result<R, TypegenError>>
        requires
            *ty == session.registry().node(type_id),
            old(cache)@.contains_key(type_id),
            old(cache)@[type_id] is Recursive,
    ;

    /// Called when a type is met whose representation is already computed. `Some`
    /// ends the resolution with that result; `None` computes it again.
    fn on_cache_hit<'a>(
        self,
        type_id: u32,
        ty: &TypeNode,
        cached: &R,
        session: &Session<'a, S, Self>,
        cache: &mut Cache<R>,
    ) -> Option<Result<R, TypegenError>>
        requires
            *ty == session.registry().node(type_id),
            old(cache)@.contains_key(type_id),
            old(cache)@[type_id] matches Cached::Computed(c) && cloned(c, *cached),
    ;
}

/// What a session reads and never changes: the registry, the policy, and a state
/// the policy may use, for example a source of pseudo-random numbers (through a
/// handle of its own choosing).
pub struct Session<'a, S, P> {
    state: S,
    policy: P,
    registry: &'a Registry,
}

/// A session's cache: for each type identifier met so far, how far its resolution
/// got. It shields the policy from endless recursion.
pub struct Cache<R> {
    map: HashMap<u32, Cached<R>>,
}

/// Turns types of a registry into representations of type `R`: a session and its
/// cache.
pub struct Transformer<'a, R, S, P> {
    session: Session<'a, S, P>,
    cache: Cache<R>,
}

/// The shapes that may be resolved again while one of their occurrences is still
/// being resolved: each occurrence of a wrapper is represented on its own.
pub open spec fn is_wrapper(shape: Shape) -> bool {
    shape is Sequence || shape is Array || shape is Tuple || shape is Compact
}

/// Whether resolution should go on, rather than stop, when a type of this shape is
/// met again while it is still being resolved. This is safe only where every cycle
/// passes through a primitive, composite or variant, which the cache then stops.
pub fn recursion_should_continue(shape: &Shape) -> (r: bool)
    ensures
        r == is_wrapper(*shape),
{
    match shape {
        Shape::Sequence(_) => true,
        Shape::Array(_, _) => true,
        Shape::Tuple(_) => true,
        Shape::Compact(_) => true,
        Shape::Composite(_) => false,
        Shape::Primitive(_) => false,
        Shape::Variant(_) => false,
        Shape::BitSequence(_, _) => false,
    }
}

/// The usual answer to a cache hit: the cached value as it is.
pub fn reuse_cached<R: Clone>(cached: &R) -> (r: Option<Result<R, TypegenError>>)
    ensures
        r matches Some(Ok(v)) && cloned(*cached, v),
{
    Some(Ok(cached.clone()))
}

impl<'a, S, P> Session<'a, S, P> {
    pub closed spec fn registry(&self) -> Registry {
        *self.registry
    }

    pub closed spec fn policy(&self) -> P {
        self.policy
    }

    pub closed spec fn state_spec(&self) -> S {
        self.state
    }

    /// The state the session was started with.
    pub fn state(&self) -> (r: &S)
        ensures
            *r == self.state_spec(),
    {
        &self.state
    }
}

impl<R> View for Cache<R> {
    type V = Map<u32, Cached<R>>;

    closed spec fn view(&self) -> Map<u32, Cached<R>> {
        self.map@
    }
}

impl<R: Clone> Cache<R> {
    /// A cache with nothing in it.
    pub fn new() -> (r: Self)
        ensures
            r@ == Map::<u32, Cached<R>>::empty(),
    {
        Cache { map: HashMap::new() }
    }

    /// Where the resolution of a type starts, by the registry and the cache.
    pub fn lookup(&self, registry: &Registry, type_id: u32) -> (r: Lookup<R>)
        ensures
            !registry.contains(type_id) ==> r is NotFound,
            registry.contains(type_id) && !self@.contains_key(type_id) ==> r is Fresh,
            registry.contains(type_id) && self@.contains_key(type_id) ==> match self@[type_id] {
                Cached::Recursive => r is InProgress,
                Cached::Computed(c) => r matches Lookup::Computed(x) && cloned(c, x),
            },
    {
        broadcast use vstd::std_specs::hash::group_hash_axioms;

        if (type_id as usize) >= registry.types.len() {
            return Lookup::NotFound;
        }
        match self.map.get(&type_id) {
            Some(Cached::Recursive) => Lookup::InProgress,
            Some(Cached::Computed(repr)) => Lookup::Computed(repr.clone()),
            None => Lookup::Fresh,
        }
    }

    /// Acts on the answer of the hook consulted for a type met before (for a type
    /// not met yet there is none): an answer ends the resolution with it and leaves
    /// the cache alone; no answer marks the type as being resolved, to be computed.
    pub fn settle(&mut self, type_id: u32, answer: Option<Result<R, TypegenError>>) -> (r: Option<
        Result<R, TypegenError>,
    >)
        ensures
            r == answer,
            answer is Some ==> final(self)@ == old(self)@,
            answer is None ==> final(self)@ == old(self)@.insert(type_id, Cached::Recursive),
    {
        broadcast use vstd::std_specs::hash::group_hash_axioms;

        match answer {
            Some(result) => Some(result),
            None => {
                self.map.insert(type_id, Cached::Recursive);
                None
            },
        }
    }

    /// Caches what was computed for a type, if it was computed, and hands it on
    /// unchanged; a failure leaves the cache as it is.
    pub fn finish(&mut self, type_id: u32, computed: Result<R, TypegenError>) -> (r: Result<
        R,
        TypegenError,
    >)
        ensures
            r == computed,
            computed is Err ==> final(self)@ == old(self)@,
            computed matches Ok(v) ==> final(self)@.contains_key(type_id) && (match final(self)@[type_id] {
                Cached::Computed(c) => cloned(v, c),
                Cached::Recursive => false,
            }),
            computed is Ok ==> forall|k: u32|
                k != type_id ==> (#[trigger] final(self)@.contains_key(k) == old(self)@.contains_key(k)
                    && final(self)@[k] == old(self)@[k]),
    {
        broadcast use vstd::std_specs::hash::group_hash_axioms;

        match computed {
            Ok(r) => {
                let c = r.clone();
                self.map.insert(type_id, Cached::Computed(c));
                Ok(r)
            },
            Err(e) => Err(e),
        }
    }

    /// Resolves a type: fails if it is not in the session's registry; consults the
    /// policy's `on_cycle` when it is still being resolved and its `on_cache_hit`
    /// when it is already computed; hands their answer to `settle`, which ends the
    /// resolution with it if there is one; otherwise `compute` runs on the type
    /// marked as being resolved, and `finish` caches and returns what it gave.
    pub fn resolve<'a, S, P: TransformPolicy<R, S> + Copy>(
        &mut self,
        session: &Session<'a, S, P>,
        type_id: u32,
    ) -> (r: Result<R, TypegenError>)
        ensures
            !session.registry().contains(type_id) ==> r == Err::<R, TypegenError>(
                TypegenError::TypeNotFound(type_id),
            ) && final(self)@ == old(self)@,
            session.registry().contains(type_id) && !old(self)@.contains_key(type_id) ==> match r {
                Ok(v) => final(self)@.contains_key(type_id) && match final(self)@[type_id] {
                    Cached::Computed(c) => cloned(v, c),
                    Cached::Recursive => false,
                },
                Err(_) => true,
            },
    {
        let registry: &'a Registry = session.registry;
        let policy = session.policy;
        let answer = match self.lookup(registry, type_id) {
            Lookup::NotFound => {
                return Err(TypegenError::TypeNotFound(type_id));
            },
            Lookup::InProgress => {
                let ty = &registry.types[type_id as usize];
                policy.on_cycle(type_id, ty, session, self)
            },
            Lookup::Computed(repr) => {
                let ty = &registry.types[type_id as usize];
                policy.on_cache_hit(type_id, ty, &repr, session, self)
            },
            Lookup::Fresh => None,
        };
        if let Some(result) = self.settle(type_id, answer) {
            return result;
        }
        let ty = &registry.types[type_id as usize];
        let computed = policy.compute(type_id, ty, session, self);
        self.finish(type_id, computed)
    }
}

impl<'a, R, S, P> Transformer<'a, R, S, P> {
    /// What the session reads.
    pub closed spec fn session(&self) -> Session<'a, S, P> {
        self.session
    }

    /// The cache: for each type identifier met so far, how far its resolution got.
    pub closed spec fn cache(&self) -> Map<u32, Cached<R>> {
        self.cache@
    }
}

impl<'a, R: Clone, S, P: TransformPolicy<R, S> + Copy> Transformer<'a, R, S, P> {
    /// Starts a session with an empty cache.
    pub fn new(policy: P, state: S, registry: &'a Registry) -> (r: Self)
        ensures
            r.cache() == Map::<u32, Cached<R>>::empty(),
            r.session().policy() == policy,
            r.session().state_spec() == state,
            r.session().registry() == *registry,
    {
        Transformer { session: Session { state, policy, registry }, cache: Cache { map: HashMap::new() } }
    }

    /// The state the session was started with.
    pub fn state(&self) -> (r: &S)
        ensures
            *r == self.session().state_spec(),
    {
        self.session.state()
    }

    /// Resolves a type with this session's cache (see `Cache::resolve`). The
    /// registry, the policy and the state are left as they were.
    pub fn resolve(&mut self, type_id: u32) -> (r: Result<R, TypegenError>)
        ensures
            final(self).session() == old(self).session(),
            !old(self).session().registry().contains(type_id) ==> r == Err::<R, TypegenError>(
                TypegenError::TypeNotFound(type_id),
            ) && final(self).cache() == old(self).cache(),
            old(self).session().registry().contains(type_id) && !old(self).cache().contains_key(type_id)
                ==> match r {
                Ok(v) => final(self).cache().contains_key(type_id) && match final(self).cache()[type_id] {
                    Cached::Computed(c) => cloned(v, c),
                    Cached::Recursive => false,
                },
                Err(_) => true,
            },
    {
        self.cache.resolve(&self.session, type_id)
    }
}

} // verus!

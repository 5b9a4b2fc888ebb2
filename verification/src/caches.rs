//! What is remembered while a tree is planned.
//!
//! Planning asks for the output of a node many times over. Within a scope
//! the first answer is kept and handed out again; outside of one nothing is.
use crate::hints::{copy_hint, hint_view, HintDF, HintView};
use crate::indexed::{get_position, new_positions, positions, put_position};
use indexmap::IndexMap;
use vstd::prelude::*;

verus! {

/// Values by node, kept from the beginning of a scope to its end.
pub struct ScopedCache<T> {
    slots: Option<IndexMap<u64, usize>>,
    items: Vec<T>,
}

impl<T> ScopedCache<T> {
    #[verifier::type_invariant]
    spec fn slots_point_at_items(self) -> bool {
        match self.slots {
            Some(m) => forall|k: u64| #[trigger]
                positions(m).contains_key(k) ==> positions(m)[k] < self.items@.len(),
            None => true,
        }
    }

    /// What is kept; nothing outside of a scope.
    pub closed spec fn view(&self) -> Option<Map<u64, T>> {
        match self.slots {
            Some(m) => Some(
                Map::new(
                    |k: u64| positions(m).contains_key(k),
                    |k: u64| self.items@[positions(m)[k] as int],
                ),
            ),
            None => None,
        }
    }

    /// A cache outside of any scope.
    pub fn new() -> (r: ScopedCache<T>)
        ensures
            r@ is None,
    {
        ScopedCache { slots: None, items: Vec::new() }
    }

    /// Begins a scope with nothing kept.
    pub fn begin_scope(&mut self)
        ensures
            final(self)@ == Some(Map::<u64, T>::empty()),
    {
        *self = ScopedCache { slots: Some(new_positions()), items: Vec::new() };
        assert(self@->0 =~= Map::<u64, T>::empty());
    }

    /// Ends the scope and drops what was kept.
    pub fn end_scope(&mut self)
        ensures
            final(self)@ is None,
    {
        *self = ScopedCache { slots: None, items: Vec::new() };
    }

    /// What is kept under a key.
    pub fn get(&self, key: u64) -> (r: Option<&T>)
        ensures
            match r {
                Some(v) => self@ is Some && self@->0.contains_key(key) && self@->0[key] == *v,
                None => self@ is None || !self@->0.contains_key(key),
            },
    {
        proof {
            use_type_invariant(self);
        }
        match &self.slots {
            Some(m) => match get_position(m, key) {
                Some(i) => Some(&self.items[i]),
                None => None,
            },
            None => None,
        }
    }

    /// Keeps a value under a key, if a scope is open.
    pub fn put(&mut self, key: u64, value: T)
        ensures
            match old(self)@ {
                Some(kept) => final(self)@ == Some(kept.insert(key, value)),
                None => final(self)@ is None,
            },
    {
        proof {
            use_type_invariant(&*self);
        }
        let mut slots: Option<IndexMap<u64, usize>> = None;
        let mut items: Vec<T> = Vec::new();
        std::mem::swap(&mut slots, &mut self.slots);
        std::mem::swap(&mut items, &mut self.items);
        let ghost was = items@;
        match slots {
            Some(m) => {
                let mut m: IndexMap<u64, usize> = m;
                let ghost before = positions(m);
                let at: usize = items.len();
                items.push(value);
                put_position(&mut m, key, at);
                *self = ScopedCache { slots: Some(m), items };
                assert(self@->0 =~= old(self)@->0.insert(key, value));
            },
            None => {},
        }
    }
}

/// What is kept of the outputs of nodes, for either party.
pub struct OutputCaches {
    pub prover: ScopedCache<HintDF>,
    pub verifier: ScopedCache<HintDF>,
}

/// Begins a scope in which the outputs of nodes are kept.
pub fn begin_verifier_output_cache_scope(caches: &mut OutputCaches)
    ensures
        final(caches).prover@ == Some(Map::<u64, HintDF>::empty()),
        final(caches).verifier@ == Some(Map::<u64, HintDF>::empty()),
{
    caches.prover.begin_scope();
    caches.verifier.begin_scope();
}

/// Ends the scope in which the outputs of nodes are kept.
pub fn end_verifier_output_cache_scope(caches: &mut OutputCaches)
    ensures
        final(caches).prover@ is None,
        final(caches).verifier@ is None,
{
    caches.prover.end_scope();
    caches.verifier.end_scope();
}

/// What asking for the output of a node does: the one that is kept for it
/// comes back; else the one that is computed does, and is kept if a scope is
/// open.
pub open spec fn kept_or_computed(
    before: Option<Map<u64, HintDF>>,
    after: Option<Map<u64, HintDF>>,
    key: u64,
    answer: HintView,
    computed: HintView,
) -> bool {
    match before {
        None => answer == computed && after is None,
        Some(kept) => if kept.contains_key(key) {
            answer == hint_view(kept[key]) && after == before
        } else {
            &&& answer == computed
            &&& after is Some
            &&& after->0.contains_key(key)
            &&& hint_view(after->0[key]) == computed
            &&& after->0.remove(key) == kept
        },
    }
}

/// The output of a node: the one that is kept under its key, or else the one
/// that `compute` returns.
pub fn with_output_cache<F: FnOnce() -> HintDF>(
    cache: &mut ScopedCache<HintDF>,
    key: u64,
    compute: F,
) -> (r: HintDF)
    requires
        call_requires(compute, ()),
    ensures
        match old(cache)@ {
            Some(kept) if kept.contains_key(key) => kept_or_computed(
                old(cache)@,
                final(cache)@,
                key,
                hint_view(r),
                hint_view(r),
            ),
            _ => exists|computed: HintDF| #[trigger]
                call_ensures(compute, (), computed) && kept_or_computed(
                    old(cache)@,
                    final(cache)@,
                    key,
                    hint_view(r),
                    hint_view(computed),
                ),
        },
{
    match cache.get(key) {
        Some(kept) => return copy_hint(kept),
        None => {},
    }
    let computed: HintDF = compute();
    let r: HintDF = copy_hint(&computed);
    cache.put(key, computed);
    proof {
        if let Some(before) = old(cache)@ {
            assert(before.insert(key, computed).remove(key) =~= before);
        }
    }
    r
}

/// While a scope is open, the output of a node stays what it was when it was
/// first asked for.
pub proof fn outputs_are_computed_once(
    start: Map<u64, HintDF>,
    first: Map<u64, HintDF>,
    second: Option<Map<u64, HintDF>>,
    key: u64,
    answer: HintView,
    computed: HintView,
    again: HintView,
    recomputed: HintView,
)
    requires
        kept_or_computed(Some(start), Some(first), key, answer, computed),
        kept_or_computed(Some(first), second, key, again, recomputed),
    ensures
        again == answer,
        second == Some(first),
{
}

/// Whether tables without rows are made in a context of their own scope.
#[derive(Debug, Clone, Copy, PartialEq, Eq, Structural)]
pub struct SchemaOnlyScope {
    pub open: bool,
}

/// The context in which a table without rows is made.
#[derive(Debug, Clone, Copy, PartialEq, Eq, Structural)]
pub enum SchemaOnlyCtx {
    /// The context of the open scope.
    Scoped,
    /// The context that all of the process shares.
    Shared,
}

/// Begins a scope with a context of its own.
pub fn begin_schema_only_ctx_scope(scope: &mut SchemaOnlyScope)
    ensures
        final(scope).open,
{
    scope.open = true;
}

/// Ends the scope and with it its context.
pub fn end_schema_only_ctx_scope(scope: &mut SchemaOnlyScope)
    ensures
        !final(scope).open,
{
    scope.open = false;
}

/// The context in which a table without rows is made.
pub fn schema_only_ctx(scope: &SchemaOnlyScope) -> (r: SchemaOnlyCtx)
    ensures
        r == if scope.open {
            SchemaOnlyCtx::Scoped
        } else {
            SchemaOnlyCtx::Shared
        },
{
    if scope.open {
        SchemaOnlyCtx::Scoped
    } else {
        SchemaOnlyCtx::Shared
    }
}

/// An output that is not kept is the one that is computed, and keeping it
/// leaves what is kept of the other nodes alone.
pub proof fn what_is_not_kept_is_computed(
    before: Option<Map<u64, HintDF>>,
    after: Option<Map<u64, HintDF>>,
    key: u64,
    other: u64,
    answer: HintView,
    computed: HintView,
)
    requires
        kept_or_computed(before, after, key, answer, computed),
        before matches Some(kept) ==> !kept.contains_key(key),
    ensures
        answer == computed,
        before is None <==> after is None,
        before matches Some(kept) && kept.contains_key(other) ==> after->0.contains_key(other)
            && after->0[other] == before->0[other],
{
    if before is Some && before->0.contains_key(other) {
        assert(after->0.remove(key).contains_key(other));
    }
}

} // verus!

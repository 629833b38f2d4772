use vstd::prelude::*;
use crate::vars::{KindedVarIndex, ParameterKind, VarIndex, Variable};
use crate::model::distinct_ids;

verus! {

/// Mints globally unique free-variable identifiers: a monotonically growing
/// counter, never reset, with no reuse of issued values. Exclusive access to
/// the allocator (Rust ownership of the `&mut` borrow) makes every increment
/// indivisible, so issued values are pairwise distinct.
pub struct FreshVarAllocator {
    next: usize,
}

impl FreshVarAllocator {
    /// Every identifier issued so far lies strictly below this value, and
    /// every identifier issued later lies at or above it.
    pub closed spec fn counter(&self) -> nat {
        self.next as nat
    }

    pub fn new() -> (a: FreshVarAllocator)
        ensures
            a.counter() == 0,
    {
        FreshVarAllocator { next: 0 }
    }
}

/// Creates a fresh free variable of the given kind that is not yet part of
/// any binder: its global id has never been issued before by this allocator.
/// Put the variable into a term and close the term with `Binder::new`.
pub fn fresh_bound_var(kind: ParameterKind, alloc: &mut FreshVarAllocator) -> (r: (
    KindedVarIndex,
    Variable,
))
    requires
        old(alloc).counter() < usize::MAX,
    ensures
        final(alloc).counter() == old(alloc).counter() + 1,
        r.0.kind == kind,
        r.0.var_index.index == old(alloc).counter(),
        r.1 == Variable::Free(r.0.var_index),
{
    let index = alloc.next;
    alloc.next = alloc.next + 1;
    let var_index = VarIndex { index };
    (KindedVarIndex { kind, var_index }, Variable::Free(var_index))
}

/// Freshness: across any two batches of opened variables whose id ranges come
/// from successive allocator states, all issued identifiers are pairwise
/// distinct, within each batch and across the two.
pub proof fn lemma_fresh_ids_pairwise_distinct(
    h1: Seq<KindedVarIndex>,
    base1: nat,
    h2: Seq<KindedVarIndex>,
    base2: nat,
)
    requires
        forall|i: int| 0 <= i < h1.len() ==> (#[trigger] h1[i]).var_index.index == base1 + i,
        forall|i: int| 0 <= i < h2.len() ==> (#[trigger] h2[i]).var_index.index == base2 + i,
        base1 + h1.len() <= base2,
    ensures
        distinct_ids(h1),
        distinct_ids(h2),
        forall|i: int, j: int|
            0 <= i < h1.len() && 0 <= j < h2.len() ==> (#[trigger] h1[i]).var_index.index != (
            #[trigger] h2[j]).var_index.index,
{
}

} // verus!

use vstd::prelude::*;
use vstd::multiset::Multiset;
use crate::vars::{KindedVarIndex, ParameterKind, VarModel, lemma_shift_var_round_trip};
use crate::model::{
    TermModel, SubstPairs, close_pairs, conforms, depths_at_least, distinct_ids, kinds_of,
    lemma_close_pairs_skips_bound, lemma_lookup_characterized, lemma_lookup_close_pairs,
    lemma_lookup_open_pairs, lemma_shift_close_pairs, lemma_shift_open_pairs,
    lemma_shift_rename_pairs, lookup, lookup_from, mentions_free, no_binders, open_pairs,
    rename_pairs, shift_in_model, shift_out_model, shift_subst, subst_model,
};

verus! {

/// Shift inverse, one way: pulling a term back out from under the binder it
/// was just moved under restores it exactly, for any term. Moving in leaves
/// no marker at the innermost depth, so the way back never fails.
pub proof fn lemma_shift_round_trip(t: TermModel)
    ensures
        shift_out_model(shift_in_model(t)) == Some(t),
    decreases t,
{
    match t {
        TermModel::Var(_, v) => {
            lemma_shift_var_round_trip(v);
        },
        TermModel::Atom(_) => {},
        TermModel::App(a, b) => {
            lemma_shift_round_trip(*a);
            lemma_shift_round_trip(*b);
        },
        TermModel::Bind(_, u) => {
            lemma_shift_round_trip(*u);
        },
    }
}

/// Shift inverse, the other way: a term that does not contain a reference at
/// the innermost depth of the outer context can be pulled out, and moving the
/// result back in restores the term exactly.
pub proof fn lemma_shift_out_then_in(t: TermModel)
    ensures
        match shift_out_model(t) {
            Some(u) => shift_in_model(u) == t,
            None => true,
        },
    decreases t,
{
    match t {
        TermModel::Var(_, _) => {},
        TermModel::Atom(_) => {},
        TermModel::App(a, b) => {
            lemma_shift_out_then_in(*a);
            lemma_shift_out_then_in(*b);
        },
        TermModel::Bind(_, u) => {
            lemma_shift_out_then_in(*u);
        },
    }
}

/// Shifting out succeeds exactly on the terms that hold no depth marker at
/// the innermost level: such a marker belongs to the enclosing binder and
/// cannot escape, and it is the only thing that stands in the way.
pub proof fn lemma_shift_out_succeeds_iff(t: TermModel)
    ensures
        (shift_out_model(t) is Some) <==> depths_at_least(t, 1),
    decreases t,
{
    match t {
        TermModel::Var(_, _) => {},
        TermModel::Atom(_) => {},
        TermModel::App(a, b) => {
            lemma_shift_out_succeeds_iff(*a);
            lemma_shift_out_succeeds_iff(*b);
        },
        TermModel::Bind(_, u) => {
            lemma_shift_out_succeeds_iff(*u);
        },
    }
}

/// Round trip: opening a conforming payload with fresh identifiers and
/// closing the result over the returned handles restores the payload exactly.
/// The handles are what `open` ensures: position-aligned kinds, ids `base + i`;
/// freshness is the allocator's guarantee that no issued id occurs in any
/// term built before it was issued.
pub proof fn lemma_open_then_close(
    t: TermModel,
    ks: Seq<ParameterKind>,
    base: nat,
    h: Seq<KindedVarIndex>,
    d: nat,
)
    requires
        conforms(t, d, ks),
        h.len() == ks.len(),
        forall|i: int|
            0 <= i < h.len() ==> (#[trigger] h[i]).kind == ks[i] && h[i].var_index.index == base
                + i,
        forall|i: int| 0 <= i < h.len() ==> !mentions_free(t, #[trigger] ((base + i) as nat)),
    ensures
        subst_model(subst_model(t, open_pairs(ks, base, d)), close_pairs(h, d)) == t,
    decreases t,
{
    match t {
        TermModel::Var(k, w) => {
            match w {
                VarModel::Bound(e, i) => {
                    if e == d {
                        lemma_lookup_open_pairs(ks, base, d, i, 0);
                        assert(h[i as int].var_index.index == base + i);
                        lemma_lookup_close_pairs(h, d, i, 0);
                    } else {
                        lemma_lookup_characterized(open_pairs(ks, base, d), w, 0);
                        if lookup(open_pairs(ks, base, d), w) is Some {
                            assert(false);
                        }
                        lemma_close_pairs_skips_bound(h, d, e, i);
                    }
                },
                VarModel::Free(x) => {
                    lemma_lookup_characterized(open_pairs(ks, base, d), w, 0);
                    if lookup(open_pairs(ks, base, d), w) is Some {
                        assert(false);
                    }
                    lemma_lookup_characterized(close_pairs(h, d), w, 0);
                    match lookup(close_pairs(h, d), w) {
                        Some(p) => {
                            let i = choose|i: int|
                                0 <= i < close_pairs(h, d).len() && #[trigger] close_pairs(
                                    h,
                                    d,
                                )[i] == (w, p);
                            assert(x == base + i);
                            assert(mentions_free(t, (base + i) as nat));
                            assert(false);
                        },
                        None => {},
                    }
                },
            }
        },
        TermModel::Atom(_) => {},
        TermModel::App(a, b) => {
            lemma_open_then_close(*a, ks, base, h, d);
            lemma_open_then_close(*b, ks, base, h, d);
        },
        TermModel::Bind(_, u) => {
            lemma_shift_open_pairs(ks, base, d);
            lemma_shift_close_pairs(h, d);
            lemma_open_then_close(*u, ks, base, h, (d + 1) as nat);
        },
    }
}

/// In a renaming over handles with pairwise distinct ids, looking up the free
/// variable listed at position `i` yields the free variable at the same
/// position of the other list.
pub proof fn lemma_lookup_rename_pairs(
    v1: Seq<KindedVarIndex>,
    v2: Seq<KindedVarIndex>,
    i: nat,
    j: nat,
)
    requires
        distinct_ids(v1),
        v2.len() == v1.len(),
        j <= i < v1.len(),
    ensures
        lookup_from(rename_pairs(v1, v2), VarModel::Free(v1[i as int].var_index.index as nat), j)
            == Some(
            TermModel::Var(
                v1[i as int].kind,
                VarModel::Free(v2[i as int].var_index.index as nat),
            ),
        ),
    decreases i - j,
{
    if j < i {
        lemma_lookup_rename_pairs(v1, v2, i, (j + 1) as nat);
    }
}

/// Alpha-equivalence: for two distinct free-variable lists of equal kinds and
/// length, closing a term over the first list equals renaming the listed
/// variables to the second list and closing over it — the chosen names are
/// erased either way. The second list must be fresh for the term, as the
/// variables a renaming writes always are.
pub proof fn lemma_alpha_equivalence(
    t: TermModel,
    v1: Seq<KindedVarIndex>,
    v2: Seq<KindedVarIndex>,
    d: nat,
)
    requires
        v1.len() == v2.len(),
        forall|i: int| 0 <= i < v1.len() ==> (#[trigger] v1[i]).kind == v2[i].kind,
        distinct_ids(v1),
        distinct_ids(v2),
        forall|i: int|
            0 <= i < v2.len() ==> !mentions_free(
                t,
                (#[trigger] v2[i]).var_index.index as nat,
            ),
    ensures
        subst_model(t, close_pairs(v1, d)) == subst_model(
            subst_model(t, rename_pairs(v1, v2)),
            close_pairs(v2, d),
        ),
    decreases t,
{
    match t {
        TermModel::Var(k, w) => {
            match w {
                VarModel::Bound(e, i) => {
                    lemma_close_pairs_skips_bound(v1, d, e, i);
                    lemma_close_pairs_skips_bound(v2, d, e, i);
                    lemma_lookup_characterized(rename_pairs(v1, v2), w, 0);
                    if lookup(rename_pairs(v1, v2), w) is Some {
                        assert(false);
                    }
                },
                VarModel::Free(x) => {
                    if exists|i: int|
                        0 <= i < v1.len() && (#[trigger] v1[i]).var_index.index as nat == x {
                        let i = choose|i: int|
                            0 <= i < v1.len() && (#[trigger] v1[i]).var_index.index as nat == x;
                        lemma_lookup_close_pairs(v1, d, i as nat, 0);
                        lemma_lookup_rename_pairs(v1, v2, i as nat, 0);
                        lemma_lookup_close_pairs(v2, d, i as nat, 0);
                    } else {
                        lemma_lookup_characterized(close_pairs(v1, d), w, 0);
                        match lookup(close_pairs(v1, d), w) {
                            Some(p) => {
                                let i = choose|i: int|
                                    0 <= i < close_pairs(v1, d).len() && #[trigger] close_pairs(
                                        v1,
                                        d,
                                    )[i] == (w, p);
                                assert(v1[i].var_index.index as nat == x);
                                assert(false);
                            },
                            None => {},
                        }
                        lemma_lookup_characterized(rename_pairs(v1, v2), w, 0);
                        match lookup(rename_pairs(v1, v2), w) {
                            Some(p) => {
                                let i = choose|i: int|
                                    0 <= i < rename_pairs(v1, v2).len() && #[trigger] rename_pairs(
                                        v1,
                                        v2,
                                    )[i] == (w, p);
                                assert(v1[i].var_index.index as nat == x);
                                assert(false);
                            },
                            None => {},
                        }
                        lemma_lookup_characterized(close_pairs(v2, d), w, 0);
                        match lookup(close_pairs(v2, d), w) {
                            Some(p) => {
                                let i = choose|i: int|
                                    0 <= i < close_pairs(v2, d).len() && #[trigger] close_pairs(
                                        v2,
                                        d,
                                    )[i] == (w, p);
                                assert(x == v2[i].var_index.index as nat);
                                assert(mentions_free(t, v2[i].var_index.index as nat));
                                assert(false);
                            },
                            None => {},
                        }
                    }
                },
            }
        },
        TermModel::Atom(_) => {},
        TermModel::App(a, b) => {
            lemma_alpha_equivalence(*a, v1, v2, d);
            lemma_alpha_equivalence(*b, v1, v2, d);
        },
        TermModel::Bind(_, u) => {
            lemma_shift_close_pairs(v1, d);
            lemma_shift_close_pairs(v2, d);
            lemma_shift_rename_pairs(v1, v2);
            lemma_alpha_equivalence(*u, v1, v2, (d + 1) as nat);
        },
    }
}

/// Alpha-equivalence at the binder's own depth, with the signatures: closing
/// a term over either of two equally kinded, fresh name lists yields the same
/// signature and the same payload — the binders are structurally equal.
pub proof fn lemma_close_erases_names(
    t: TermModel,
    v1: Seq<KindedVarIndex>,
    v2: Seq<KindedVarIndex>,
)
    requires
        v1.len() == v2.len(),
        forall|i: int| 0 <= i < v1.len() ==> (#[trigger] v1[i]).kind == v2[i].kind,
        distinct_ids(v1),
        distinct_ids(v2),
        forall|i: int|
            0 <= i < v2.len() ==> !mentions_free(
                t,
                (#[trigger] v2[i]).var_index.index as nat,
            ),
    ensures
        kinds_of(v1) == kinds_of(v2),
        subst_model(t, close_pairs(v1, 0)) == subst_model(
            subst_model(t, rename_pairs(v1, v2)),
            close_pairs(v2, 0),
        ),
{
    lemma_alpha_equivalence(t, v1, v2, 0);
    assert(kinds_of(v1) =~= kinds_of(v2));
}

/// The occurrences, as a multiset of positions, of the bound references that
/// point `d` binders out from the term's top: for `d == 0`, the variables the
/// immediately enclosing binder owns.
pub open spec fn inner_occs(t: TermModel, d: nat) -> Multiset<nat>
    decreases t,
{
    match t {
        TermModel::Var(_, v) => match v {
            VarModel::Bound(e, i) => if e == d {
                Multiset::empty().insert(i)
            } else {
                Multiset::empty()
            },
            VarModel::Free(_) => Multiset::empty(),
        },
        TermModel::Atom(_) => Multiset::empty(),
        TermModel::App(a, b) => inner_occs(*a, d).add(inner_occs(*b, d)),
        TermModel::Bind(_, u) => inner_occs(*u, (d + 1) as nat),
    }
}

pub proof fn lemma_depths_at_least_zero(t: TermModel)
    ensures
        depths_at_least(t, 0),
    decreases t,
{
    match t {
        TermModel::Var(_, _) => {},
        TermModel::Atom(_) => {},
        TermModel::App(a, b) => {
            lemma_depths_at_least_zero(*a);
            lemma_depths_at_least_zero(*b);
        },
        TermModel::Bind(_, u) => {
            lemma_depths_at_least_zero(*u);
        },
    }
}

pub proof fn lemma_shift_keeps_flat(t: TermModel, e: nat)
    requires
        no_binders(t),
        depths_at_least(t, e),
    ensures
        no_binders(shift_in_model(t)),
        depths_at_least(shift_in_model(t), (e + 1) as nat),
    decreases t,
{
    match t {
        TermModel::Var(_, _) => {},
        TermModel::Atom(_) => {},
        TermModel::App(a, b) => {
            lemma_shift_keeps_flat(*a, e);
            lemma_shift_keeps_flat(*b, e);
        },
        TermModel::Bind(_, _) => {},
    }
}

proof fn lemma_clear_no_inner(t: TermModel, e: nat, d: nat)
    requires
        no_binders(t),
        depths_at_least(t, e),
        e > d,
    ensures
        inner_occs(t, d) == Multiset::<nat>::empty(),
    decreases t,
{
    match t {
        TermModel::Var(_, _) => {},
        TermModel::Atom(_) => {},
        TermModel::App(a, b) => {
            lemma_clear_no_inner(*a, e, d);
            lemma_clear_no_inner(*b, e, d);
            assert(inner_occs(t, d) =~= Multiset::<nat>::empty());
        },
        TermModel::Bind(_, _) => {},
    }
}

/// Substitution locality, the general step: a substitution whose variables
/// all live strictly outside depth `d` and whose replacements are flat terms
/// shifted past depth `d` preserves, occurrence for occurrence, every bound
/// reference at depth `d`.
pub proof fn lemma_subst_keeps_inner(t: TermModel, s: SubstPairs, d: nat)
    requires
        forall|j: int|
            0 <= j < s.len() ==> ((#[trigger] s[j]).0 matches VarModel::Bound(e, _) ==> e > d),
        forall|j: int|
            0 <= j < s.len() ==> no_binders((#[trigger] s[j]).1) && depths_at_least(
                s[j].1,
                (d + 1) as nat,
            ),
    ensures
        inner_occs(subst_model(t, s), d) == inner_occs(t, d),
    decreases t,
{
    match t {
        TermModel::Var(k, w) => {
            lemma_lookup_characterized(s, w, 0);
            match lookup(s, w) {
                Some(p) => {
                    let j = choose|j: int| 0 <= j < s.len() && #[trigger] s[j] == (w, p);
                    lemma_clear_no_inner(p, (d + 1) as nat, d);
                },
                None => {},
            }
        },
        TermModel::Atom(_) => {},
        TermModel::App(a, b) => {
            lemma_subst_keeps_inner(*a, s, d);
            lemma_subst_keeps_inner(*b, s, d);
        },
        TermModel::Bind(_, u) => {
            assert forall|j: int| 0 <= j < shift_subst(s).len() implies ((#[trigger] shift_subst(
                s,
            )[j]).0 matches VarModel::Bound(e, _) ==> e > d + 1) && no_binders(shift_subst(s)[j].1)
                && depths_at_least(shift_subst(s)[j].1, (d + 2) as nat) by {
                assert(s[j].0 matches VarModel::Bound(e, _) ==> e > d);
                assert(no_binders(s[j].1) && depths_at_least(s[j].1, (d + 1) as nat));
                lemma_shift_keeps_flat(s[j].1, (d + 1) as nat);
            }
            lemma_subst_keeps_inner(*u, shift_subst(s), (d + 1) as nat);
        },
    }
}

} // verus!

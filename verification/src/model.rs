use vstd::prelude::*;
use crate::vars::{KindedVarIndex, ParameterKind, VarModel, shift_in_var, shift_out_var};

verus! {

/// Mathematical image of a term, shared by every representation that
/// satisfies the traversal contract: a variable of a given kind, an opaque
/// leaf, a structural node, or a nested binder over a payload.
pub enum TermModel {
    Var(ParameterKind, VarModel),
    Atom(u64),
    App(Box<TermModel>, Box<TermModel>),
    Bind(Seq<ParameterKind>, Box<TermModel>),
}

/// A substitution as a finite, ordered list of pairs: the first pair whose
/// variable matches decides the replacement.
pub type SubstPairs = Seq<(VarModel, TermModel)>;

pub open spec fn lookup_from(s: SubstPairs, v: VarModel, j: nat) -> Option<TermModel>
    decreases s.len() - j,
{
    if j >= s.len() {
        None
    } else if s[j as int].0 == v {
        Some(s[j as int].1)
    } else {
        lookup_from(s, v, (j + 1) as nat)
    }
}

pub open spec fn lookup(s: SubstPairs, v: VarModel) -> Option<TermModel> {
    lookup_from(s, v, 0)
}

/// Every depth marker in the term grows by one: the adjustment applied when
/// the whole term moves under one additional binder.
pub open spec fn shift_in_model(t: TermModel) -> TermModel
    decreases t,
{
    match t {
        TermModel::Var(k, v) => TermModel::Var(k, shift_in_var(v)),
        TermModel::Atom(_) => t,
        TermModel::App(a, b) => TermModel::App(
            Box::new(shift_in_model(*a)),
            Box::new(shift_in_model(*b)),
        ),
        TermModel::Bind(ks, u) => TermModel::Bind(ks, Box::new(shift_in_model(*u))),
    }
}

/// Every depth marker shrinks by one; fails if any variable sits at the
/// innermost depth, since that variable cannot escape its binder.
pub open spec fn shift_out_model(t: TermModel) -> Option<TermModel>
    decreases t,
{
    match t {
        TermModel::Var(k, v) => match shift_out_var(v) {
            Some(w) => Some(TermModel::Var(k, w)),
            None => None,
        },
        TermModel::Atom(_) => Some(t),
        TermModel::App(a, b) => match (shift_out_model(*a), shift_out_model(*b)) {
            (Some(x), Some(y)) => Some(TermModel::App(Box::new(x), Box::new(y))),
            _ => None,
        },
        TermModel::Bind(ks, u) => match shift_out_model(*u) {
            Some(w) => Some(TermModel::Bind(ks, Box::new(w))),
            None => None,
        },
    }
}

/// The substitution as seen one binder deeper: every variable and every
/// replacement is shifted in.
pub open spec fn shift_subst(s: SubstPairs) -> SubstPairs {
    s.map_values(|p: (VarModel, TermModel)| (shift_in_var(p.0), shift_in_model(p.1)))
}

/// Capture-avoiding substitution. At a nested binder the substitution is
/// rewritten for the deeper scope: a variable owned by that binder can match
/// no shifted-in pair, and every replacement is shifted in so that, written
/// for the outer scope, it still denotes the same thing one level deeper.
pub open spec fn subst_model(t: TermModel, s: SubstPairs) -> TermModel
    decreases t,
{
    match t {
        TermModel::Var(k, v) => match lookup(s, v) {
            Some(p) => p,
            None => t,
        },
        TermModel::Atom(_) => t,
        TermModel::App(a, b) => TermModel::App(
            Box::new(subst_model(*a, s)),
            Box::new(subst_model(*b, s)),
        ),
        TermModel::Bind(ks, u) => TermModel::Bind(ks, Box::new(subst_model(*u, shift_subst(s)))),
    }
}

/// The free variables of a term, in traversal order, duplicates kept: the
/// occurrences of variables carrying a global id. Bound references are never
/// reported, whatever their depth.
pub open spec fn free_vars_model(t: TermModel) -> Seq<VarModel>
    decreases t,
{
    match t {
        TermModel::Var(_, v) => match v {
            VarModel::Free(_) => seq![v],
            VarModel::Bound(_, _) => Seq::empty(),
        },
        TermModel::Atom(_) => Seq::empty(),
        TermModel::App(a, b) => free_vars_model(*a) + free_vars_model(*b),
        TermModel::Bind(_, u) => free_vars_model(*u),
    }
}

/// Whether the free variable with global id `x` occurs anywhere in the term.
pub open spec fn mentions_free(t: TermModel, x: nat) -> bool
    decreases t,
{
    match t {
        TermModel::Var(_, v) => v == VarModel::Free(x),
        TermModel::Atom(_) => false,
        TermModel::App(a, b) => mentions_free(*a, x) || mentions_free(*b, x),
        TermModel::Bind(_, u) => mentions_free(*u, x),
    }
}

/// Whether some bound reference at relative depth `d` occurs in the term:
/// a reference that, read from the term's top, points `d` binders out.
pub open spec fn mentions_bound_at(t: TermModel, d: nat) -> bool
    decreases t,
{
    match t {
        TermModel::Var(_, v) => v matches VarModel::Bound(e, _) && e == d,
        TermModel::Atom(_) => false,
        TermModel::App(a, b) => mentions_bound_at(*a, d) || mentions_bound_at(*b, d),
        TermModel::Bind(_, u) => mentions_bound_at(*u, (d + 1) as nat),
    }
}

/// Every bound reference at relative depth `d` has a position inside the
/// signature `ks` and carries the kind the signature declares there: the
/// representation invariant of a binder's payload toward its own variables.
pub open spec fn conforms(t: TermModel, d: nat, ks: Seq<ParameterKind>) -> bool
    decreases t,
{
    match t {
        TermModel::Var(k, v) => match v {
            VarModel::Bound(e, i) => e == d ==> i < ks.len() && k == ks[i as int],
            VarModel::Free(_) => true,
        },
        TermModel::Atom(_) => true,
        TermModel::App(a, b) => conforms(*a, d, ks) && conforms(*b, d, ks),
        TermModel::Bind(_, u) => conforms(*u, (d + 1) as nat, ks),
    }
}

/// The term holds no nested binder node.
pub open spec fn no_binders(t: TermModel) -> bool
    decreases t,
{
    match t {
        TermModel::Var(_, _) => true,
        TermModel::Atom(_) => true,
        TermModel::App(a, b) => no_binders(*a) && no_binders(*b),
        TermModel::Bind(_, _) => false,
    }
}

/// Every bound depth marker anywhere in the term is at least `d`.
pub open spec fn depths_at_least(t: TermModel, d: nat) -> bool
    decreases t,
{
    match t {
        TermModel::Var(_, v) => match v {
            VarModel::Bound(e, _) => e >= d,
            VarModel::Free(_) => true,
        },
        TermModel::Atom(_) => true,
        TermModel::App(a, b) => depths_at_least(*a, d) && depths_at_least(*b, d),
        TermModel::Bind(_, u) => depths_at_least(*u, d),
    }
}

/// How deeply binder nodes nest inside the term.
pub open spec fn bind_nesting(t: TermModel) -> nat
    decreases t,
{
    match t {
        TermModel::Var(_, _) => 0,
        TermModel::Atom(_) => 0,
        TermModel::App(a, b) => if bind_nesting(*a) >= bind_nesting(*b) {
            bind_nesting(*a)
        } else {
            bind_nesting(*b)
        },
        TermModel::Bind(_, u) => bind_nesting(*u) + 1,
    }
}

/// Every depth marker in the term leaves room to grow by `fuel` without
/// passing the machine limit: the cost of carrying the term through `fuel`
/// nested binder crossings.
pub open spec fn depth_room(t: TermModel, fuel: nat) -> bool
    decreases t,
{
    match t {
        TermModel::Var(_, v) => match v {
            VarModel::Bound(e, _) => e + fuel <= usize::MAX,
            VarModel::Free(_) => true,
        },
        TermModel::Atom(_) => true,
        TermModel::App(a, b) => depth_room(*a, fuel) && depth_room(*b, fuel),
        TermModel::Bind(_, u) => depth_room(*u, fuel),
    }
}

/// Room for one variable's marker to grow by `fuel`.
pub open spec fn var_depth_room(v: VarModel, fuel: nat) -> bool {
    match v {
        VarModel::Bound(e, _) => e + fuel <= usize::MAX,
        VarModel::Free(_) => true,
    }
}

/// Every pair of the substitution can be carried through `fuel` nested
/// binder crossings without a depth marker passing the machine limit.
pub open spec fn subst_depth_room(s: SubstPairs, fuel: nat) -> bool {
    forall|j: int|
        0 <= j < s.len() ==> var_depth_room(#[trigger] s[j].0, fuel) && depth_room(s[j].1, fuel)
}

/// The ordered list of kinds that a list of opened variable handles declares.
pub open spec fn kinds_of(v: Seq<KindedVarIndex>) -> Seq<ParameterKind> {
    v.map_values(|h: KindedVarIndex| h.kind)
}

/// The substitution that closing over the handles `v` applies, as seen under
/// `d` extra binders: each listed free variable becomes a bound reference at
/// depth `d`, position its list index, of its declared kind.
pub open spec fn close_pairs(v: Seq<KindedVarIndex>, d: nat) -> SubstPairs {
    Seq::new(
        v.len(),
        |i: int|
            (
                VarModel::Free(v[i].var_index.index as nat),
                TermModel::Var(v[i].kind, VarModel::Bound(d, i as nat)),
            ),
    )
}

/// The substitution that opening applies, as seen under `d` extra binders:
/// the bound reference at depth `d`, position `i`, becomes the free variable
/// with global id `base + i`, of the kind the signature declares.
pub open spec fn open_pairs(ks: Seq<ParameterKind>, base: nat, d: nat) -> SubstPairs {
    Seq::new(
        ks.len(),
        |i: int| (VarModel::Bound(d, i as nat), TermModel::Var(ks[i], VarModel::Free((base + i) as nat))),
    )
}

/// The substitution that instantiation applies: the bound reference at the
/// innermost depth, position `i`, becomes the caller-chosen replacement.
pub open spec fn inst_pairs(vals: Seq<TermModel>) -> SubstPairs {
    Seq::new(vals.len(), |i: int| (VarModel::Bound(0, i as nat), vals[i]))
}

/// A renaming: each free variable listed in `v1` becomes the free variable
/// listed at the same position of `v2`.
pub open spec fn rename_pairs(v1: Seq<KindedVarIndex>, v2: Seq<KindedVarIndex>) -> SubstPairs {
    Seq::new(
        v1.len(),
        |i: int|
            (
                VarModel::Free(v1[i].var_index.index as nat),
                TermModel::Var(v1[i].kind, VarModel::Free(v2[i].var_index.index as nat)),
            ),
    )
}

pub proof fn lemma_depth_room_mono(t: TermModel, f1: nat, f2: nat)
    requires
        depth_room(t, f1),
        f2 <= f1,
    ensures
        depth_room(t, f2),
    decreases t,
{
    match t {
        TermModel::Var(_, _) => {},
        TermModel::Atom(_) => {},
        TermModel::App(a, b) => {
            lemma_depth_room_mono(*a, f1, f2);
            lemma_depth_room_mono(*b, f1, f2);
        },
        TermModel::Bind(_, u) => {
            lemma_depth_room_mono(*u, f1, f2);
        },
    }
}

pub proof fn lemma_shift_depth_room(t: TermModel, f: nat)
    requires
        depth_room(t, f + 1),
    ensures
        depth_room(shift_in_model(t), f),
    decreases t,
{
    match t {
        TermModel::Var(_, _) => {},
        TermModel::Atom(_) => {},
        TermModel::App(a, b) => {
            lemma_shift_depth_room(*a, f);
            lemma_shift_depth_room(*b, f);
        },
        TermModel::Bind(_, u) => {
            lemma_shift_depth_room(*u, f);
        },
    }
}

/// A substitution that can cross `f + 1` binders still crosses `f` once it
/// has been shifted in for the first of them.
pub proof fn lemma_shift_subst_room(s: SubstPairs, f: nat)
    requires
        subst_depth_room(s, f + 1),
    ensures
        subst_depth_room(shift_subst(s), f),
        subst_depth_room(s, 1),
{
    assert forall|j: int| 0 <= j < shift_subst(s).len() implies var_depth_room(
        #[trigger] shift_subst(s)[j].0,
        f,
    ) && depth_room(shift_subst(s)[j].1, f) by {
        assert(var_depth_room(s[j].0, f + 1));
        assert(depth_room(s[j].1, f + 1));
        lemma_shift_depth_room(s[j].1, f);
    }
    assert forall|j: int| 0 <= j < s.len() implies var_depth_room(#[trigger] s[j].0, 1)
        && depth_room(s[j].1, 1) by {
        assert(var_depth_room(s[j].0, f + 1));
        assert(depth_room(s[j].1, f + 1));
        lemma_depth_room_mono(s[j].1, f + 1, 1);
    }
}

pub proof fn lemma_no_binders_nesting(t: TermModel)
    requires
        no_binders(t),
    ensures
        bind_nesting(t) == 0,
    decreases t,
{
    match t {
        TermModel::Var(_, _) => {},
        TermModel::Atom(_) => {},
        TermModel::App(a, b) => {
            lemma_no_binders_nesting(*a);
            lemma_no_binders_nesting(*b);
        },
        TermModel::Bind(_, _) => {},
    }
}

pub proof fn lemma_shift_no_binders(t: TermModel)
    requires
        no_binders(t),
    ensures
        no_binders(shift_in_model(t)),
    decreases t,
{
    match t {
        TermModel::Var(_, _) => {},
        TermModel::Atom(_) => {},
        TermModel::App(a, b) => {
            lemma_shift_no_binders(*a);
            lemma_shift_no_binders(*b);
        },
        TermModel::Bind(_, _) => {},
    }
}

/// A substitution whose replacements nest no binder cannot deepen the binder
/// nesting of the term it rewrites.
pub proof fn lemma_subst_flat_nesting(t: TermModel, s: SubstPairs)
    requires
        forall|j: int| 0 <= j < s.len() ==> no_binders((#[trigger] s[j]).1),
    ensures
        bind_nesting(subst_model(t, s)) <= bind_nesting(t),
    decreases t,
{
    match t {
        TermModel::Var(_, w) => {
            lemma_lookup_characterized(s, w, 0);
            match lookup(s, w) {
                Some(p) => {
                    let j = choose|j: int| 0 <= j < s.len() && #[trigger] s[j] == (w, p);
                    lemma_no_binders_nesting(p);
                },
                None => {},
            }
        },
        TermModel::Atom(_) => {},
        TermModel::App(a, b) => {
            lemma_subst_flat_nesting(*a, s);
            lemma_subst_flat_nesting(*b, s);
        },
        TermModel::Bind(_, u) => {
            assert forall|j: int| 0 <= j < shift_subst(s).len() implies no_binders(
                (#[trigger] shift_subst(s)[j]).1,
            ) by {
                assert(no_binders(s[j].1));
                lemma_shift_no_binders(s[j].1);
            }
            lemma_subst_flat_nesting(*u, shift_subst(s));
        },
    }
}

/// Pairwise distinct global ids in a handle list.
pub open spec fn distinct_ids(v: Seq<KindedVarIndex>) -> bool {
    forall|i: int, j: int|
        0 <= i < j < v.len() ==> v[i].var_index.index != v[j].var_index.index
}

/// What a lookup can return: a pair of the list when it finds one, and then
/// no earlier pair carries the variable; otherwise no pair at all does.
pub proof fn lemma_lookup_characterized(s: SubstPairs, v: VarModel, j: nat)
    requires
        j <= s.len(),
    ensures
        match lookup_from(s, v, j) {
            Some(p) => exists|i: int|
                j <= i < s.len() && #[trigger] s[i] == (v, p),
            None => forall|i: int| j <= i < s.len() ==> (#[trigger] s[i]).0 != v,
        },
    decreases s.len() - j,
{
    if j == s.len() {
    } else if s[j as int].0 == v {
        assert(s[j as int] == (v, s[j as int].1));
    } else {
        lemma_lookup_characterized(s, v, (j + 1) as nat);
    }
}

pub proof fn lemma_shift_close_pairs(v: Seq<KindedVarIndex>, d: nat)
    ensures
        shift_subst(close_pairs(v, d)) == close_pairs(v, (d + 1) as nat),
{
    assert(shift_subst(close_pairs(v, d)) =~= close_pairs(v, (d + 1) as nat));
}

pub proof fn lemma_shift_open_pairs(ks: Seq<ParameterKind>, base: nat, d: nat)
    ensures
        shift_subst(open_pairs(ks, base, d)) == open_pairs(ks, base, (d + 1) as nat),
{
    assert(shift_subst(open_pairs(ks, base, d)) =~= open_pairs(ks, base, (d + 1) as nat));
}

/// A renaming replaces free variables by free variables: read one binder
/// deeper it is unchanged.
pub proof fn lemma_shift_rename_pairs(v1: Seq<KindedVarIndex>, v2: Seq<KindedVarIndex>)
    ensures
        shift_subst(rename_pairs(v1, v2)) == rename_pairs(v1, v2),
{
    assert(shift_subst(rename_pairs(v1, v2)) =~= rename_pairs(v1, v2));
}

/// Looking a bound reference up in a closing substitution finds nothing:
/// every variable it lists is free.
pub proof fn lemma_close_pairs_skips_bound(v: Seq<KindedVarIndex>, d: nat, e: nat, i: nat)
    ensures
        lookup(close_pairs(v, d), VarModel::Bound(e, i)) is None,
{
    lemma_lookup_characterized(close_pairs(v, d), VarModel::Bound(e, i), 0);
    if lookup(close_pairs(v, d), VarModel::Bound(e, i)) is Some {
        assert(false);
    }
}

/// Looking up the bound reference at depth `d`, position `i`, in an opening
/// substitution for depth `d` yields the fresh free variable for slot `i`.
pub proof fn lemma_lookup_open_pairs(ks: Seq<ParameterKind>, base: nat, d: nat, i: nat, j: nat)
    requires
        j <= i < ks.len(),
    ensures
        lookup_from(open_pairs(ks, base, d), VarModel::Bound(d, i), j) == Some(
            TermModel::Var(ks[i as int], VarModel::Free((base + i) as nat)),
        ),
    decreases i - j,
{
    if j < i {
        lemma_lookup_open_pairs(ks, base, d, i, (j + 1) as nat);
    }
}

/// In a closing substitution over handles with pairwise distinct ids, looking
/// up the free variable listed at position `i` yields the bound reference for
/// slot `i`, whatever came before it in the list.
pub proof fn lemma_lookup_close_pairs(v: Seq<KindedVarIndex>, d: nat, i: nat, j: nat)
    requires
        distinct_ids(v),
        j <= i < v.len(),
    ensures
        lookup_from(close_pairs(v, d), VarModel::Free(v[i as int].var_index.index as nat), j)
            == Some(TermModel::Var(v[i as int].kind, VarModel::Bound(d, i))),
    decreases i - j,
{
    if j < i {
        lemma_lookup_close_pairs(v, d, i, (j + 1) as nat);
    }
}

/// Closing a term that holds no dangling reference at the closed depth makes
/// its payload conform to the new signature: every reference the closing
/// wrote points below the arity and carries the declared kind.
pub proof fn lemma_close_conforms(t: TermModel, v: Seq<KindedVarIndex>, d: nat)
    requires
        !mentions_bound_at(t, d),
    ensures
        conforms(subst_model(t, close_pairs(v, d)), d, kinds_of(v)),
    decreases t,
{
    match t {
        TermModel::Var(k, w) => {
            lemma_lookup_characterized(close_pairs(v, d), w, 0);
            match lookup(close_pairs(v, d), w) {
                Some(p) => {
                    let i = choose|i: int|
                        0 <= i < v.len() && #[trigger] close_pairs(v, d)[i] == (w, p);
                    assert(p == TermModel::Var(v[i].kind, VarModel::Bound(d, i as nat)));
                    assert(kinds_of(v)[i] == v[i].kind);
                },
                None => {},
            }
        },
        TermModel::Atom(_) => {},
        TermModel::App(a, b) => {
            lemma_close_conforms(*a, v, d);
            lemma_close_conforms(*b, v, d);
        },
        TermModel::Bind(_, u) => {
            lemma_shift_close_pairs(v, d);
            lemma_close_conforms(*u, v, (d + 1) as nat);
        },
    }
}

/// Opening a conforming payload leaves no reference at the opened depth:
/// every slot reference became a free variable.
pub proof fn lemma_open_clears_inner(t: TermModel, ks: Seq<ParameterKind>, base: nat, d: nat)
    requires
        conforms(t, d, ks),
    ensures
        !mentions_bound_at(subst_model(t, open_pairs(ks, base, d)), d),
    decreases t,
{
    match t {
        TermModel::Var(k, w) => {
            match w {
                VarModel::Bound(e, i) => {
                    if e == d {
                        lemma_lookup_open_pairs(ks, base, d, i, 0);
                    } else {
                        lemma_lookup_characterized(open_pairs(ks, base, d), w, 0);
                        if lookup(open_pairs(ks, base, d), w) is Some {
                            assert(false);
                        }
                    }
                },
                VarModel::Free(_) => {
                    lemma_lookup_characterized(open_pairs(ks, base, d), w, 0);
                    if lookup(open_pairs(ks, base, d), w) is Some {
                        assert(false);
                    }
                },
            }
        },
        TermModel::Atom(_) => {},
        TermModel::App(a, b) => {
            lemma_open_clears_inner(*a, ks, base, d);
            lemma_open_clears_inner(*b, ks, base, d);
        },
        TermModel::Bind(_, u) => {
            lemma_shift_open_pairs(ks, base, d);
            lemma_open_clears_inner(*u, ks, base, (d + 1) as nat);
        },
    }
}

} // verus!

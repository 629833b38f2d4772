use binders::binder::Binder;
use binders::fold::{Fold, Parameter, Substitution, TyTerm, Upcast};
use binders::fresh::{fresh_bound_var, FreshVarAllocator};
use binders::vars::{DebruijnIndex, KindedVarIndex, ParameterKind, VarIndex, Variable};

fn free(id: usize) -> Variable {
    Variable::Free(VarIndex { index: id })
}

fn bound(depth: usize, pos: usize) -> Variable {
    Variable::Bound(DebruijnIndex { index: depth }, VarIndex { index: pos })
}

fn ty_var(v: Variable) -> Parameter {
    Parameter::Var(ParameterKind::Ty, v)
}

fn app(a: Parameter, b: Parameter) -> Parameter {
    Parameter::App(Box::new(a), Box::new(b))
}

#[test]
fn fresh_identifiers_pairwise_distinct() {
    let mut alloc = FreshVarAllocator::new();
    let mut ids: Vec<usize> = Vec::new();
    for _ in 0..5 {
        let (kv, var) = fresh_bound_var(ParameterKind::Ty, &mut alloc);
        assert_eq!(var, Variable::Free(kv.var_index));
        ids.push(kv.var_index.index);
    }
    let (kv_lt, _) = fresh_bound_var(ParameterKind::Lt, &mut alloc);
    assert_eq!(kv_lt.kind, ParameterKind::Lt);
    ids.push(kv_lt.var_index.index);
    for i in 0..ids.len() {
        for j in 0..ids.len() {
            if i != j {
                assert_ne!(ids[i], ids[j]);
            }
        }
    }
}

#[test]
fn open_gives_fresh_vars_at_same_positions() {
    // Signature [Ty, Ty]; the payload references slot 0 and slot 1.
    let mut alloc = FreshVarAllocator::new();
    let (kx, x) = fresh_bound_var(ParameterKind::Ty, &mut alloc);
    let (ky, y) = fresh_bound_var(ParameterKind::Ty, &mut alloc);
    let term = app(ty_var(x), ty_var(y));
    let b = Binder::new(&vec![kx, ky], term);
    assert_eq!(b.len(), 2);
    assert_eq!(*b.peek(), app(ty_var(bound(0, 0)), ty_var(bound(0, 1))));

    let (handles, opened) = b.open(&mut alloc);
    assert_eq!(handles.len(), 2);
    assert_eq!(handles[0].kind, ParameterKind::Ty);
    assert_eq!(handles[1].kind, ParameterKind::Ty);
    assert_ne!(handles[0].var_index, handles[1].var_index);
    // Fresh, distinct variables stand at the same positions.
    let fx = Variable::Free(handles[0].var_index);
    let fy = Variable::Free(handles[1].var_index);
    assert_eq!(opened, app(ty_var(fx), ty_var(fy)));
}

#[test]
fn open_then_close_rebuilds_binder_exactly() {
    let mut alloc = FreshVarAllocator::new();
    let (kx, x) = fresh_bound_var(ParameterKind::Ty, &mut alloc);
    let (ky, y) = fresh_bound_var(ParameterKind::Ty, &mut alloc);
    let b = Binder::new(&vec![kx, ky], app(ty_var(x), app(Parameter::Atom(3), ty_var(y))));

    let (handles, opened) = b.open(&mut alloc);
    let b2 = Binder::new(&handles, opened);
    assert_eq!(b2, b);
}

#[test]
fn close_is_alpha_equivalent_over_renamed_lists() {
    // Distinct free-variable lists of equal kinds; the terms differ only in
    // the chosen names, so the closed binders are structurally equal.
    let mut alloc = FreshVarAllocator::new();
    let (k1a, v1a) = fresh_bound_var(ParameterKind::Ty, &mut alloc);
    let (k1b, v1b) = fresh_bound_var(ParameterKind::Lt, &mut alloc);
    let (k2a, v2a) = fresh_bound_var(ParameterKind::Ty, &mut alloc);
    let (k2b, v2b) = fresh_bound_var(ParameterKind::Lt, &mut alloc);

    let t1 = app(ty_var(v1a), Parameter::Var(ParameterKind::Lt, v1b));
    let t2 = app(ty_var(v2a), Parameter::Var(ParameterKind::Lt, v2b));
    let b1 = Binder::new(&vec![k1a, k1b], t1);
    let b2 = Binder::new(&vec![k2a, k2b], t2);
    assert_eq!(b1, b2);
}

#[test]
fn instantiate_replaces_each_position_without_allocating() {
    let mut alloc = FreshVarAllocator::new();
    let (kx, x) = fresh_bound_var(ParameterKind::Ty, &mut alloc);
    let (ky, y) = fresh_bound_var(ParameterKind::Ty, &mut alloc);
    let b = Binder::new(&vec![kx, ky], app(ty_var(x), ty_var(y)));

    // op(Ty, 0) = Atom(1), op(Ty, 1) = Atom(2): position 0 becomes Atom(1)
    // and position 1 becomes Atom(2); no fresh identifier is involved.
    let r = b.instantiate(|_k: ParameterKind, vi: VarIndex| {
        if vi.index == 0 {
            Parameter::Atom(1)
        } else {
            Parameter::Atom(2)
        }
    });
    assert_eq!(r, app(Parameter::Atom(1), Parameter::Atom(2)));
}

#[test]
fn shift_in_then_out_restores_term() {
    let t = app(ty_var(bound(1, 0)), app(Parameter::Atom(7), ty_var(free(4))));
    let deeper = t.shift_in();
    assert_eq!(deeper, app(ty_var(bound(2, 0)), app(Parameter::Atom(7), ty_var(free(4)))));
    assert_eq!(deeper.shift_out(), Some(t));
}

#[test]
fn shift_out_fails_on_innermost_variable() {
    let v = bound(0, 3);
    assert_eq!(v.shift_out(), None);
    let t = app(Parameter::Atom(0), ty_var(bound(0, 3)));
    assert_eq!(t.shift_out(), None);
    // A variable one level out escapes fine.
    assert_eq!(bound(2, 3).shift_out(), Some(bound(1, 3)));
}

#[test]
fn substitute_through_binder_leaves_bound_vars_alone() {
    let mut alloc = FreshVarAllocator::new();
    let (kx, x) = fresh_bound_var(ParameterKind::Ty, &mut alloc);
    let (_ky, y) = fresh_bound_var(ParameterKind::Ty, &mut alloc);
    // Close over x only: y stays free relative to the binder.
    let b = Binder::new(&vec![kx], app(ty_var(x), ty_var(y)));
    assert_eq!(*b.peek(), app(ty_var(bound(0, 0)), ty_var(y)));

    let mut s = Substitution::new();
    s.push(y, Parameter::Atom(9));
    let b2 = b.substitute(&s);
    // The bound variable is untouched, only the free one changed.
    assert_eq!(*b2.peek(), app(ty_var(bound(0, 0)), Parameter::Atom(9)));
}

#[test]
fn substitute_through_binder_shifts_replacement_depths() {
    let mut alloc = FreshVarAllocator::new();
    let (kx, x) = fresh_bound_var(ParameterKind::Ty, &mut alloc);
    let (_ky, y) = fresh_bound_var(ParameterKind::Ty, &mut alloc);
    let b = Binder::new(&vec![kx], app(ty_var(x), ty_var(y)));

    // The replacement references the outer scope's innermost binder; written
    // one level deeper it must read one depth further out.
    let mut s = Substitution::new();
    s.push(y, ty_var(bound(0, 5)));
    let b2 = b.substitute(&s);
    assert_eq!(*b2.peek(), app(ty_var(bound(0, 0)), ty_var(bound(1, 5))));
}

#[test]
fn first_matching_pair_wins_in_a_substitution() {
    let mut s = Substitution::new();
    s.push(free(4), Parameter::Atom(1));
    s.push(free(4), Parameter::Atom(2));
    let t = ty_var(free(4));
    assert_eq!(t.substitute(&s), Parameter::Atom(1));
}

#[test]
fn closing_nested_binders_crosses_scopes_without_capture() {
    let mut alloc = FreshVarAllocator::new();
    let (kx, x) = fresh_bound_var(ParameterKind::Ty, &mut alloc);
    let (ky, y) = fresh_bound_var(ParameterKind::Ty, &mut alloc);
    let inner = Binder::new(&vec![ky], app(ty_var(y), ty_var(x)));
    assert_eq!(*inner.peek(), app(ty_var(bound(0, 0)), ty_var(x)));

    // Closing x through the inner binder: the reference to x, one binder
    // deeper, must come out at depth 1, while y's slot stays at depth 0.
    let outer = Binder::new(&vec![kx], inner);
    assert_eq!(*outer.peek().peek(), app(ty_var(bound(0, 0)), ty_var(bound(1, 0))));

    // Opening the outer binder frees x again at its former spots.
    let (handles, reopened) = outer.open(&mut alloc);
    assert_eq!(handles.len(), 1);
    let fx = Variable::Free(handles[0].var_index);
    assert_eq!(*reopened.peek(), app(ty_var(bound(0, 0)), ty_var(fx)));
}

#[test]
fn free_variables_in_traversal_order_with_duplicates() {
    let t = app(ty_var(free(10)), app(ty_var(bound(0, 2)), ty_var(free(10))));
    let vs = t.free_variables();
    assert_eq!(vs, vec![free(10), free(10)]);

    let mut alloc = FreshVarAllocator::new();
    let (kx, x) = fresh_bound_var(ParameterKind::Ty, &mut alloc);
    let (_ky, y) = fresh_bound_var(ParameterKind::Ty, &mut alloc);
    let b = Binder::new(&vec![kx], app(ty_var(x), ty_var(y)));
    // Only y is still free: the closed x was erased.
    assert_eq!(b.free_variables(), vec![y]);
}

#[test]
fn widening_preserves_signature_and_payload() {
    let mut alloc = FreshVarAllocator::new();
    let (kx, x) = fresh_bound_var(ParameterKind::Ty, &mut alloc);
    let narrow = TyTerm::new(app(ty_var(x), Parameter::Atom(5)));
    let b: Binder<TyTerm> = Binder::new(&vec![kx], narrow);
    assert_eq!(b.len(), 1);

    let wide: Binder<Parameter> = b.into();
    assert_eq!(wide.len(), 1);
    assert_eq!(*wide.peek(), app(ty_var(bound(0, 0)), Parameter::Atom(5)));

    // The embedding itself is the identity on the underlying structure.
    let back = TyTerm::new(app(ty_var(free(3)), Parameter::Atom(6)));
    assert_eq!(back.upcast(), app(ty_var(free(3)), Parameter::Atom(6)));
}

#[test]
fn peek_reads_payload_without_renaming() {
    let mut alloc = FreshVarAllocator::new();
    let (kx, x) = fresh_bound_var(ParameterKind::Lt, &mut alloc);
    let b = Binder::new(&vec![kx], Parameter::Var(ParameterKind::Lt, x));
    assert_eq!(*b.peek(), Parameter::Var(ParameterKind::Lt, bound(0, 0)));
    assert_eq!(b.len(), 1);
}

#[test]
fn opened_identifiers_stay_distinct_across_calls() {
    let mut alloc = FreshVarAllocator::new();
    let (kx, x) = fresh_bound_var(ParameterKind::Ty, &mut alloc);
    let b = Binder::new(&vec![kx], ty_var(x));
    let mut seen: Vec<usize> = Vec::new();
    for _ in 0..4 {
        let (handles, _t) = b.open(&mut alloc);
        seen.push(handles[0].var_index.index);
    }
    for i in 0..seen.len() {
        for j in 0..seen.len() {
            if i != j {
                assert_ne!(seen[i], seen[j]);
            }
        }
    }
}

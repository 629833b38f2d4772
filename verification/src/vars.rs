use vstd::prelude::*;

verus! {

/// The sort of a variable: the closed set of kinds a binder can declare.
#[derive(Clone, Copy, Debug, PartialEq, Eq, PartialOrd, Ord, Hash, Structural)]
pub enum ParameterKind {
    Ty,
    Lt,
}

/// A position: within a binder, the slot of a bound variable; for a free
/// variable, its globally unique identifier.
#[derive(Clone, Copy, Debug, PartialEq, Eq, PartialOrd, Ord, Hash, Structural)]
pub struct VarIndex {
    pub index: usize,
}

/// How many enclosing binders are crossed, from the point of use outward,
/// to reach the owning binder; 0 names the innermost enclosing binder.
#[derive(Clone, Copy, Debug, PartialEq, Eq, PartialOrd, Ord, Hash, Structural)]
pub struct DebruijnIndex {
    pub index: usize,
}

/// A free variable handle paired with its kind: the externally visible
/// handle that opening a binder returns.
#[derive(Clone, Copy, Debug, PartialEq, Eq, PartialOrd, Ord, Hash, Structural)]
pub struct KindedVarIndex {
    pub kind: ParameterKind,
    pub var_index: VarIndex,
}

/// A variable: still bound, addressed by depth and position relative to the
/// current tree position, or free, identified solely by a global id.
#[derive(Clone, Copy, Debug, PartialEq, Eq, PartialOrd, Ord, Hash, Structural)]
pub enum Variable {
    Bound(DebruijnIndex, VarIndex),
    Free(VarIndex),
}

/// Mathematical image of a variable: depth and position as unbounded naturals.
pub enum VarModel {
    Bound(nat, nat),
    Free(nat),
}

impl View for Variable {
    type V = VarModel;

    open spec fn view(&self) -> VarModel {
        match *self {
            Variable::Bound(d, i) => VarModel::Bound(d.index as nat, i.index as nat),
            Variable::Free(i) => VarModel::Free(i.index as nat),
        }
    }
}

/// Depth-marker adjustment on one variable when its term moves one binder
/// deeper: every bound depth grows by one, free variables are untouched.
pub open spec fn shift_in_var(v: VarModel) -> VarModel {
    match v {
        VarModel::Bound(d, i) => VarModel::Bound(d + 1, i),
        VarModel::Free(_) => v,
    }
}

/// Depth-marker adjustment on one variable when its term is pulled out from
/// under one binder. A variable at the innermost depth belongs to the binder
/// currently enclosing it and cannot escape: the result is then `None`, which
/// is meaningful control flow, not an error.
pub open spec fn shift_out_var(v: VarModel) -> Option<VarModel> {
    match v {
        VarModel::Bound(d, i) => if d == 0 {
            None
        } else {
            Some(VarModel::Bound((d - 1) as nat, i))
        },
        VarModel::Free(_) => Some(v),
    }
}

/// Shifting in and then out restores any variable; shifting in never lands
/// on the innermost depth, so the way back always exists.
pub proof fn lemma_shift_var_round_trip(v: VarModel)
    ensures
        shift_out_var(shift_in_var(v)) == Some(v),
{
}

impl Variable {
    /// The depth marker below, never at, the machine limit, so that one more
    /// binder crossing is representable.
    pub open spec fn can_shift_in(self) -> bool {
        match self {
            Variable::Bound(d, _) => d.index < usize::MAX,
            Variable::Free(_) => true,
        }
    }

    /// Reads this variable one binder deeper: bound depth grows by one.
    pub fn shift_in(&self) -> (r: Variable)
        requires
            self.can_shift_in(),
        ensures
            r@ == shift_in_var(self@),
    {
        match *self {
            Variable::Bound(d, i) => Variable::Bound(DebruijnIndex { index: d.index + 1 }, i),
            Variable::Free(i) => Variable::Free(i),
        }
    }

    /// Pulls this variable out from under one binder: `None` exactly when the
    /// variable sits at the innermost depth and so cannot escape.
    pub fn shift_out(&self) -> (r: Option<Variable>)
        ensures
            match r {
                Some(w) => shift_out_var(self@) == Some(w@),
                None => shift_out_var(self@) is None,
            },
    {
        match *self {
            Variable::Bound(d, i) => if d.index == 0 {
                None
            } else {
                Some(Variable::Bound(DebruijnIndex { index: d.index - 1 }, i))
            },
            Variable::Free(i) => Some(Variable::Free(i)),
        }
    }
}

} // verus!

use vstd::prelude::*;
use crate::vars::{ParameterKind, Variable, shift_in_var};
use crate::model::{
    TermModel, SubstPairs, lookup, lookup_from, subst_model, shift_in_model, shift_out_model,
    shift_subst, free_vars_model, bind_nesting, depth_room, var_depth_room, subst_depth_room,
    no_binders,
};

verus! {

/// Exec equality of variables coincides with equality of their images.
pub proof fn lemma_var_view_injective(a: Variable, b: Variable)
    ensures
        (a == b) <==> (a@ == b@),
{
}

/// A finite, transient mapping from variable to replacement term of matching
/// kind. The first pair whose variable matches decides the replacement; the
/// binder layer trusts the supplied kinds and does not re-validate them.
pub struct Substitution {
    pairs: Vec<(Variable, Parameter)>,
}

impl View for Substitution {
    type V = SubstPairs;

    closed spec fn view(&self) -> SubstPairs {
        self.pairs@.map_values(|p: (Variable, Parameter)| (p.0@, p.1@))
    }
}

impl Substitution {
    pub fn new() -> (s: Substitution)
        ensures
            s@ == Seq::<(crate::vars::VarModel, TermModel)>::empty(),
    {
        let s = Substitution { pairs: Vec::new() };
        proof {
            assert(s@ =~= Seq::<(crate::vars::VarModel, TermModel)>::empty());
        }
        s
    }

    pub fn push(&mut self, v: Variable, p: Parameter)
        ensures
            final(self)@ == old(self)@.push((v@, p@)),
    {
        self.pairs.push((v, p));
        proof {
            assert(self@ =~= old(self)@.push((v@, p@)));
        }
    }

    /// The replacement recorded for `v`, if any: the first matching pair wins.
    pub fn get(&self, v: &Variable) -> (r: Option<&Parameter>)
        ensures
            match r {
                Some(p) => lookup(self@, v@) == Some(p@),
                None => lookup(self@, v@) is None,
            },
    {
        let n = self.pairs.len();
        let mut i: usize = 0;
        while i < n
            invariant
                n == self.pairs.len(),
                0 <= i <= n,
                lookup_from(self@, v@, 0) == lookup_from(self@, v@, i as nat),
            decreases n - i,
        {
            if self.pairs[i].0 == *v {
                proof {
                    lemma_var_view_injective(self.pairs@[i as int].0, *v);
                }
                return Some(&self.pairs[i].1);
            }
            proof {
                lemma_var_view_injective(self.pairs@[i as int].0, *v);
            }
            i += 1;
        }
        None
    }

    /// This substitution as it reads one binder deeper: every variable and
    /// every replacement shifted in.
    pub fn shift_in(&self) -> (r: Substitution)
        requires
            subst_depth_room(self@, 1),
        ensures
            r@ == shift_subst(self@),
    {
        let n = self.pairs.len();
        let mut out: Vec<(Variable, Parameter)> = Vec::new();
        let mut i: usize = 0;
        while i < n
            invariant
                n == self.pairs.len(),
                0 <= i <= n,
                subst_depth_room(self@, 1),
                out@.len() == i,
                forall|j: int|
                    0 <= j < i ==> (#[trigger] out@[j]).0@ == shift_in_var(self@[j].0)
                        && out@[j].1@ == shift_in_model(self@[j].1),
            decreases n - i,
        {
            proof {
                assert(var_depth_room(self@[i as int].0, 1));
                assert(depth_room(self@[i as int].1, 1));
                assert(self@[i as int] == (self.pairs@[i as int].0@, self.pairs@[i as int].1@));
            }
            let v = self.pairs[i].0.shift_in();
            let p = self.pairs[i].1.shift_in();
            out.push((v, p));
            i += 1;
        }
        let r = Substitution { pairs: out };
        proof {
            assert(r@ =~= shift_subst(self@));
        }
        r
    }
}

/// The capture-aware rewrite operations every term representation supports.
/// All contracts are stated over the shared mathematical term image, so the
/// binder layer works for any representation alike.
pub trait Fold: Sized {
    /// The mathematical image of this term.
    spec fn model(&self) -> TermModel;

    /// Replaces each variable the substitution lists, capture-avoidingly:
    /// combines children without otherwise altering structure.
    fn substitute(&self, s: &Substitution) -> (r: Self)
        requires
            subst_depth_room(s@, bind_nesting(self.model())),
        ensures
            r.model() == subst_model(self.model(), s@),
    ;

    /// The term as it reads one binder deeper.
    fn shift_in(&self) -> (r: Self)
        requires
            depth_room(self.model(), 1),
        ensures
            r.model() == shift_in_model(self.model()),
    ;

    /// The term pulled out from under one binder; `None` exactly when some
    /// variable at the innermost depth would escape its binder.
    fn shift_out(&self) -> (r: Option<Self>)
        ensures
            match r {
                Some(u) => shift_out_model(self.model()) == Some(u.model()),
                None => shift_out_model(self.model()) is None,
            },
    ;

    /// The variables in the term that no binder inside the term itself binds,
    /// in traversal order, duplicates kept.
    fn free_variables(&self) -> (r: Vec<Variable>)
        ensures
            r@.map_values(|v: Variable| v@) == free_vars_model(self.model()),
    ;
}

/// A structure-preserving embedding of a narrower term representation into a
/// broader one: the image is unchanged, so the embedding never reallocates
/// or renumbers a variable.
pub trait Upcast<U: Fold>: Fold {
    fn upcast(self) -> (u: U)
        ensures
            u.model() == self.model(),
    ;
}

/// A concrete term of the language: a variable lifted to a term of a given
/// kind, an opaque labelled leaf, or a pairing of two subterms. Collaborating
/// layers with richer shapes satisfy the same traversal contract.
#[derive(Debug, PartialEq, Eq, PartialOrd, Ord, Hash)]
pub enum Parameter {
    Var(ParameterKind, Variable),
    Atom(u64),
    App(Box<Parameter>, Box<Parameter>),
}

/// The mathematical image of a concrete term.
pub open spec fn param_model(p: Parameter) -> TermModel
    decreases p,
{
    match p {
        Parameter::Var(k, v) => TermModel::Var(k, v@),
        Parameter::Atom(l) => TermModel::Atom(l),
        Parameter::App(a, b) => TermModel::App(
            Box::new(param_model(*a)),
            Box::new(param_model(*b)),
        ),
    }
}

impl View for Parameter {
    type V = TermModel;

    open spec fn view(&self) -> TermModel {
        param_model(*self)
    }
}

/// A concrete term holds no binder node: its image nests no binder, and every
/// depth marker it carries fits the machine word it is stored in.
pub proof fn lemma_parameter_flat(p: Parameter)
    ensures
        no_binders(p@),
        bind_nesting(p@) == 0,
        depth_room(p@, 0),
    decreases p,
{
    match p {
        Parameter::Var(_, _) => {},
        Parameter::Atom(_) => {},
        Parameter::App(a, b) => {
            lemma_parameter_flat(*a);
            lemma_parameter_flat(*b);
        },
    }
}

fn clone_parameter(p: &Parameter) -> (r: Parameter)
    ensures
        r == *p,
    decreases *p,
{
    match p {
        Parameter::Var(k, v) => Parameter::Var(*k, *v),
        Parameter::Atom(l) => Parameter::Atom(*l),
        Parameter::App(a, b) => Parameter::App(
            Box::new(clone_parameter(a)),
            Box::new(clone_parameter(b)),
        ),
    }
}

impl Clone for Parameter {
    fn clone(&self) -> (r: Self)
        ensures
            r == *self,
    {
        clone_parameter(self)
    }
}

impl Fold for Parameter {
    open spec fn model(&self) -> TermModel {
        self.view()
    }

    fn substitute(&self, s: &Substitution) -> (r: Self)
        decreases *self,
    {
        match self {
            Parameter::Var(k, v) => match s.get(v) {
                Some(p) => p.clone(),
                None => Parameter::Var(*k, *v),
            },
            Parameter::Atom(l) => Parameter::Atom(*l),
            Parameter::App(a, b) => {
                proof {
                    lemma_parameter_flat(**a);
                    lemma_parameter_flat(**b);
                }
                Parameter::App(Box::new(a.substitute(s)), Box::new(b.substitute(s)))
            },
        }
    }

    fn shift_in(&self) -> (r: Self)
        decreases *self,
    {
        match self {
            Parameter::Var(k, v) => Parameter::Var(*k, v.shift_in()),
            Parameter::Atom(l) => Parameter::Atom(*l),
            Parameter::App(a, b) => Parameter::App(
                Box::new(a.shift_in()),
                Box::new(b.shift_in()),
            ),
        }
    }

    fn shift_out(&self) -> (r: Option<Self>)
        decreases *self,
    {
        match self {
            Parameter::Var(k, v) => match v.shift_out() {
                Some(w) => Some(Parameter::Var(*k, w)),
                None => None,
            },
            Parameter::Atom(l) => Some(Parameter::Atom(*l)),
            Parameter::App(a, b) => match (a.shift_out(), b.shift_out()) {
                (Some(x), Some(y)) => Some(Parameter::App(Box::new(x), Box::new(y))),
                _ => None,
            },
        }
    }

    fn free_variables(&self) -> (r: Vec<Variable>)
        decreases *self,
    {
        match self {
            Parameter::Var(_, v) => match v {
                Variable::Free(_) => {
                    let mut out: Vec<Variable> = Vec::new();
                    out.push(*v);
                    proof {
                        assert(out@.map_values(|w: Variable| w@) =~= free_vars_model(
                            self.model(),
                        ));
                    }
                    out
                },
                Variable::Bound(_, _) => {
                    let out: Vec<Variable> = Vec::new();
                    proof {
                        assert(out@.map_values(|w: Variable| w@) =~= free_vars_model(
                            self.model(),
                        ));
                    }
                    out
                },
            },
            Parameter::Atom(_) => {
                let out: Vec<Variable> = Vec::new();
                proof {
                    assert(out@.map_values(|w: Variable| w@) =~= free_vars_model(self.model()));
                }
                out
            },
            Parameter::App(a, b) => {
                let mut out = a.free_variables();
                let mut rest = b.free_variables();
                out.append(&mut rest);
                proof {
                    assert(out@.map_values(|w: Variable| w@) =~= free_vars_model(self.model()));
                }
                out
            },
        }
    }
}

impl Substitution {
    /// Every replacement a substitution carries is a concrete term, so its
    /// image nests no binder.
    pub proof fn lemma_values_flat(&self)
        ensures
            forall|j: int| 0 <= j < self@.len() ==> no_binders((#[trigger] self@[j]).1),
    {
        assert forall|j: int| 0 <= j < self@.len() implies no_binders(
            (#[trigger] self@[j]).1,
        ) by {
            assert(self@[j].1 == self.pairs@[j].1@);
            lemma_parameter_flat(self.pairs@[j].1);
        }
    }
}

/// A term known to be of the type kind: a narrower representation whose
/// traversal delegates to the broad one it wraps, and which embeds into it.
#[derive(Clone, Debug, PartialEq, Eq, PartialOrd, Ord, Hash)]
pub struct TyTerm {
    term: Parameter,
}

impl TyTerm {
    pub fn new(term: Parameter) -> (t: TyTerm)
        ensures
            t.model() == term@,
    {
        TyTerm { term }
    }
}

impl Fold for TyTerm {
    closed spec fn model(&self) -> TermModel {
        param_model(self.term)
    }

    fn substitute(&self, s: &Substitution) -> (r: Self) {
        TyTerm { term: self.term.substitute(s) }
    }

    fn shift_in(&self) -> (r: Self) {
        TyTerm { term: self.term.shift_in() }
    }

    fn shift_out(&self) -> (r: Option<Self>) {
        match self.term.shift_out() {
            Some(term) => Some(TyTerm { term }),
            None => None,
        }
    }

    fn free_variables(&self) -> (r: Vec<Variable>) {
        self.term.free_variables()
    }
}

impl Upcast<Parameter> for TyTerm {
    fn upcast(self) -> (u: Parameter) {
        self.term
    }
}

} // verus!

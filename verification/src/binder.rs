use vstd::prelude::*;
use crate::vars::{DebruijnIndex, KindedVarIndex, ParameterKind, VarIndex, VarModel, Variable};
use crate::model::{
    TermModel, SubstPairs, bind_nesting, close_pairs, conforms, depth_room, distinct_ids,
    inst_pairs, kinds_of, lemma_close_conforms, lemma_open_clears_inner, lemma_shift_subst_room,
    mentions_bound_at, open_pairs, shift_subst, subst_depth_room, subst_model, var_depth_room,
};
use crate::fold::{Fold, Parameter, Substitution, Upcast, param_model};
use crate::fresh::{FreshVarAllocator, fresh_bound_var};
use crate::model::{mentions_free, no_binders};
use crate::laws::{
    inner_occs, lemma_depths_at_least_zero, lemma_open_then_close, lemma_shift_keeps_flat,
    lemma_subst_keeps_inner,
};

verus! {

fn copy_kinds(v: &Vec<ParameterKind>) -> (r: Vec<ParameterKind>)
    ensures
        r@ == v@,
{
    let n = v.len();
    let mut out: Vec<ParameterKind> = Vec::new();
    let mut i: usize = 0;
    while i < n
        invariant
            n == v.len(),
            0 <= i <= n,
            out@ == v@.subrange(0, i as int),
        decreases n - i,
    {
        out.push(v[i]);
        proof {
            assert(out@ =~= v@.subrange(0, i + 1 as int));
        }
        i += 1;
    }
    proof {
        assert(out@ =~= v@);
    }
    out
}

/// A term with a fixed, ordered list of declared bound variables of known
/// kinds: position `i` of the signature corresponds to a bound reference at
/// the innermost depth, position `i`, inside the payload. Built once by
/// `new`, then immutable: opening and instantiating derive independent new
/// terms. Free-variable names are erased entirely in the closed form, so two
/// binders built from alpha-equivalent inputs are structurally equal.
#[derive(Clone, Debug, PartialEq, Eq, PartialOrd, Ord, Hash)]
pub struct Binder<T> {
    kinds: Vec<ParameterKind>,
    term: T,
}

impl<T: Fold> Binder<T> {
    /// The ordered kinds of the variables this binder declares.
    pub closed spec fn signature(&self) -> Seq<ParameterKind> {
        self.kinds@
    }

    /// The image of the still-bound payload term.
    pub closed spec fn payload(&self) -> TermModel {
        self.term.model()
    }

    /// The representation invariant: every bound reference at the innermost
    /// depth has a position below the arity and carries the declared kind.
    pub open spec fn wf(&self) -> bool {
        conforms(self.payload(), 0, self.signature())
    }

    /// Given an ordered list of opened variable handles and a term that
    /// references them freely, builds the binder that binds them: each listed
    /// free variable becomes a bound reference at the innermost depth whose
    /// position is its list index. The free identifiers are erased entirely,
    /// so two calls with the same kinds and terms equal up to the listed
    /// names yield structurally equal binders.
    pub fn new(variables: &Vec<KindedVarIndex>, term: T) -> (b: Binder<T>)
        requires
            !mentions_bound_at(term.model(), 0),
            bind_nesting(term.model()) <= usize::MAX,
        ensures
            b.signature() == kinds_of(variables@),
            b.payload() == subst_model(term.model(), close_pairs(variables@, 0)),
            b.wf(),
            bind_nesting(b.payload()) <= bind_nesting(term.model()),
    {
        let n = variables.len();
        let mut kinds: Vec<ParameterKind> = Vec::new();
        let mut s = Substitution::new();
        let mut i: usize = 0;
        while i < n
            invariant
                n == variables.len(),
                0 <= i <= n,
                kinds@.len() == i,
                forall|j: int| 0 <= j < i ==> kinds@[j] == variables@[j].kind,
                s@.len() == i,
                forall|j: int| 0 <= j < i ==> s@[j] == close_pairs(variables@, 0)[j],
            decreases n - i,
        {
            let kv = variables[i];
            kinds.push(kv.kind);
            s.push(
                Variable::Free(kv.var_index),
                Parameter::Var(kv.kind, Variable::Bound(DebruijnIndex { index: 0 }, VarIndex { index: i })),
            );
            i += 1;
        }
        proof {
            assert(s@ =~= close_pairs(variables@, 0));
            assert(kinds@ =~= kinds_of(variables@));
            let fuel = bind_nesting(term.model());
            assert forall|j: int| 0 <= j < s@.len() implies var_depth_room(
                #[trigger] s@[j].0,
                fuel,
            ) && depth_room(s@[j].1, fuel) by {
                assert(s@[j] == close_pairs(variables@, 0)[j]);
            }
            lemma_close_conforms(term.model(), variables@, 0);
            assert forall|j: int| 0 <= j < s@.len() implies no_binders((#[trigger] s@[j]).1) by {
                assert(s@[j] == close_pairs(variables@, 0)[j]);
            }
            crate::model::lemma_subst_flat_nesting(term.model(), s@);
        }
        let term = term.substitute(&s);
        Binder { kinds, term }
    }

    /// Accesses the contents of the binder. Each declared position gets one
    /// fresh free variable of its kind from the allocator, distinct from
    /// every identifier the allocator ever issued; each innermost bound
    /// reference is rewritten to the fresh variable of its position. Returns
    /// the position-aligned handle list and the rewritten term. The binder
    /// itself is not changed; the expectation is that you will later build a
    /// term and use `Binder::new`.
    pub fn open(&self, alloc: &mut FreshVarAllocator) -> (r: (Vec<KindedVarIndex>, T))
        requires
            old(alloc).counter() + self.signature().len() <= usize::MAX,
            bind_nesting(self.payload()) <= usize::MAX,
        ensures
            r.0@.len() == self.signature().len(),
            forall|i: int|
                0 <= i < r.0@.len() ==> (#[trigger] r.0@[i]).kind == self.signature()[i]
                    && r.0@[i].var_index.index == old(alloc).counter() + i,
            distinct_ids(r.0@),
            final(alloc).counter() == old(alloc).counter() + self.signature().len(),
            r.1.model() == subst_model(
                self.payload(),
                open_pairs(self.signature(), old(alloc).counter(), 0),
            ),
            self.wf() ==> !mentions_bound_at(r.1.model(), 0),
            bind_nesting(r.1.model()) <= bind_nesting(self.payload()),
    {
        let n = self.kinds.len();
        let ghost base = alloc.counter();
        let mut handles: Vec<KindedVarIndex> = Vec::new();
        let mut s = Substitution::new();
        let mut i: usize = 0;
        while i < n
            invariant
                n == self.kinds.len(),
                0 <= i <= n,
                base + n <= usize::MAX,
                alloc.counter() == base + i,
                handles@.len() == i,
                forall|j: int|
                    0 <= j < i ==> (#[trigger] handles@[j]).kind == self.kinds@[j]
                        && handles@[j].var_index.index == base + j,
                s@.len() == i,
                forall|j: int| 0 <= j < i ==> s@[j] == open_pairs(self.kinds@, base, 0)[j],
            decreases n - i,
        {
            let kind = self.kinds[i];
            let (kv, var) = fresh_bound_var(kind, alloc);
            handles.push(kv);
            s.push(Variable::Bound(DebruijnIndex { index: 0 }, VarIndex { index: i }), Parameter::Var(kind, var));
            i += 1;
        }
        proof {
            assert(s@ =~= open_pairs(self.signature(), base, 0));
            let fuel = bind_nesting(self.payload());
            assert forall|j: int| 0 <= j < s@.len() implies var_depth_room(
                #[trigger] s@[j].0,
                fuel,
            ) && depth_room(s@[j].1, fuel) by {
                assert(s@[j] == open_pairs(self.signature(), base, 0)[j]);
            }
            if self.wf() {
                lemma_open_clears_inner(self.payload(), self.signature(), base, 0);
            }
            assert forall|j: int| 0 <= j < s@.len() implies no_binders((#[trigger] s@[j]).1) by {
                assert(s@[j] == open_pairs(self.signature(), base, 0)[j]);
            }
            crate::model::lemma_subst_flat_nesting(self.payload(), s@);
        }
        let term = self.term.substitute(&s);
        (handles, term)
    }

    /// Number of variables bound by this binder.
    pub fn len(&self) -> (n: usize)
        ensures
            n == self.signature().len(),
    {
        self.kinds.len()
    }

    /// Accesses the data inside the binder without renaming anything. Use
    /// this for simple reads that are independent of the bound variables;
    /// if that is not the case, use `open`.
    pub fn peek(&self) -> (t: &T)
        ensures
            t.model() == self.payload(),
    {
        &self.term
    }

    /// Instantiates the term, replacing the bound reference at the innermost
    /// depth, position `i`, with `op(kind_i, i)`: like `open`, but the caller
    /// chooses every replacement and no fresh identifier is allocated.
    pub fn instantiate<F: Fn(ParameterKind, VarIndex) -> Parameter>(&self, op: F) -> (r: T)
        requires
            bind_nesting(self.payload()) <= usize::MAX,
            forall|i: usize|
                i < self.signature().len() ==> call_requires(
                    op,
                    (self.signature()[i as int], VarIndex { index: i }),
                ),
            forall|i: usize, ret: Parameter|
                i < self.signature().len() && call_ensures(
                    op,
                    (self.signature()[i as int], VarIndex { index: i }),
                    ret,
                ) ==> depth_room(param_model(ret), bind_nesting(self.payload())),
        ensures
            exists|vals: Seq<Parameter>|
                #![trigger vals.len()]
                vals.len() == self.signature().len() && (forall|i: int|
                    0 <= i < vals.len() ==> call_ensures(
                        op,
                        (self.signature()[i], VarIndex { index: i as usize }),
                        #[trigger] vals[i],
                    )) && r.model() == subst_model(
                    self.payload(),
                    inst_pairs(vals.map_values(|p: Parameter| param_model(p))),
                ),
    {
        let n = self.kinds.len();
        let ghost mut gvals: Seq<Parameter> = Seq::empty();
        let mut s = Substitution::new();
        let mut i: usize = 0;
        while i < n
            invariant
                n == self.kinds.len(),
                0 <= i <= n,
                forall|j: usize|
                    j < n ==> call_requires(op, (self.signature()[j as int], VarIndex { index: j })),
                forall|j: usize, ret: Parameter|
                    j < n && call_ensures(
                        op,
                        (self.signature()[j as int], VarIndex { index: j }),
                        ret,
                    ) ==> depth_room(param_model(ret), bind_nesting(self.payload())),
                gvals.len() == i,
                forall|j: int|
                    0 <= j < i ==> call_ensures(
                        op,
                        (self.signature()[j], VarIndex { index: j as usize }),
                        #[trigger] gvals[j],
                    ),
                s@.len() == i,
                forall|j: int|
                    0 <= j < i ==> #[trigger] s@[j] == (
                        VarModel::Bound(0, j as nat),
                        param_model(gvals[j]),
                    ),
            decreases n - i,
        {
            proof {
                assert(call_requires(op, (self.signature()[i as int], VarIndex { index: i })));
            }
            let p = op(self.kinds[i], VarIndex { index: i });
            proof {
                gvals = gvals.push(p);
            }
            s.push(Variable::Bound(DebruijnIndex { index: 0 }, VarIndex { index: i }), p);
            i += 1;
        }
        proof {
            assert(s@ =~= inst_pairs(gvals.map_values(|p: Parameter| param_model(p))));
            let fuel = bind_nesting(self.payload());
            assert forall|j: int| 0 <= j < s@.len() implies var_depth_room(
                #[trigger] s@[j].0,
                fuel,
            ) && depth_room(s@[j].1, fuel) by {
                assert(call_ensures(
                    op,
                    (self.signature()[j], VarIndex { index: j as usize }),
                    gvals[j],
                ));
            }
        }
        let r = self.term.substitute(&s);
        proof {
            let vals = gvals;
            assert(vals.len() == self.signature().len() && (forall|i: int|
                0 <= i < vals.len() ==> call_ensures(
                    op,
                    (self.signature()[i], VarIndex { index: i as usize }),
                    #[trigger] vals[i],
                )) && r.model() == subst_model(
                self.payload(),
                inst_pairs(vals.map_values(|p: Parameter| param_model(p))),
            ));
        }
        r
    }
}

impl<T: Fold> Binder<T> {
    /// Widens this binder over a narrower term representation into a binder
    /// over a broader one: the signature is kept exactly, only the payload is
    /// carried through the embedding.
    pub fn into<U: Fold>(self) -> (b: Binder<U>) where T: Upcast<U>
        ensures
            b.signature() == self.signature(),
            b.payload() == self.payload(),
    {
        let Binder { kinds, term } = self;
        Binder { kinds, term: term.upcast() }
    }
}

impl<T: Fold + Upcast<U>, U: Fold> Upcast<Binder<U>> for Binder<T> {
    fn upcast(self) -> (u: Binder<U>) {
        self.into()
    }
}

/// Round trip: opening a well-formed binder and closing the rewritten term
/// over the returned handles rebuilds the binder exactly — same signature,
/// same payload. The handle list is what `open` ensures; the last premise is
/// the allocator's freshness guarantee, since an id never issued before the
/// binder's payload was built cannot occur in it.
pub proof fn lemma_open_close_round_trip<T: Fold>(
    b: &Binder<T>,
    h: Seq<KindedVarIndex>,
    base: nat,
)
    requires
        b.wf(),
        h.len() == b.signature().len(),
        forall|i: int|
            0 <= i < h.len() ==> (#[trigger] h[i]).kind == b.signature()[i]
                && h[i].var_index.index == base + i,
        forall|i: int|
            0 <= i < h.len() ==> !mentions_free(b.payload(), #[trigger] ((base + i) as nat)),
    ensures
        kinds_of(h) == b.signature(),
        subst_model(
            subst_model(b.payload(), open_pairs(b.signature(), base, 0)),
            close_pairs(h, 0),
        ) == b.payload(),
{
    lemma_open_then_close(b.payload(), b.signature(), base, h, 0);
    assert(kinds_of(h) =~= b.signature());
}

/// Substitution locality: substituting through a binder never alters a
/// variable the binder itself owns. The payload the rewritten binder carries
/// — `subst_model` of the payload under the shifted substitution, exactly
/// what `substitute` ensures — keeps every occurrence of every bound
/// reference at the innermost depth, position for position; only variables
/// free relative to the binder may change.
pub proof fn lemma_substitute_locality<T: Fold>(b: &Binder<T>, s: SubstPairs)
    requires
        forall|j: int| 0 <= j < s.len() ==> no_binders((#[trigger] s[j]).1),
    ensures
        inner_occs(subst_model(b.payload(), shift_subst(s)), 0) == inner_occs(b.payload(), 0),
{
    assert forall|j: int| 0 <= j < shift_subst(s).len() implies ((#[trigger] shift_subst(
        s,
    )[j]).0 matches VarModel::Bound(e, _) ==> e > 0) && no_binders(shift_subst(s)[j].1)
        && crate::model::depths_at_least(shift_subst(s)[j].1, 1) by {
        assert(no_binders(s[j].1));
        lemma_depths_at_least_zero(s[j].1);
        lemma_shift_keeps_flat(s[j].1, 0);
    }
    lemma_subst_keeps_inner(b.payload(), shift_subst(s), 0);
}

impl<T: Fold> Fold for Binder<T> {
    open spec fn model(&self) -> TermModel {
        TermModel::Bind(self.signature(), Box::new(self.payload()))
    }

    /// Substitution through a binder, the crux of capture avoidance: the
    /// substitution is rewritten for the deeper scope, so a variable owned by
    /// this binder matches nothing and stays untouched, and every replacement
    /// is shifted in so that it still denotes the same thing one level
    /// deeper. The signature never changes.
    fn substitute(&self, s: &Substitution) -> (r: Self) {
        proof {
            lemma_shift_subst_room(s@, bind_nesting(self.payload()));
        }
        let shifted = s.shift_in();
        let term = self.term.substitute(&shifted);
        let kinds = copy_kinds(&self.kinds);
        Binder { kinds, term }
    }

    fn shift_in(&self) -> (r: Self) {
        let term = self.term.shift_in();
        let kinds = copy_kinds(&self.kinds);
        Binder { kinds, term }
    }

    fn shift_out(&self) -> (r: Option<Self>) {
        match self.term.shift_out() {
            Some(term) => {
                let kinds = copy_kinds(&self.kinds);
                Some(Binder { kinds, term })
            },
            None => None,
        }
    }

    fn free_variables(&self) -> (r: Vec<Variable>) {
        self.term.free_variables()
    }
}

} // verus!

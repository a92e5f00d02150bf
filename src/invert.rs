use vstd::prelude::*;
use crate::canonicalize::{canon_ty, distinct, lemma_distinct_bounded, var_index, Canonicalized};
use crate::normalize::walkable;
use crate::infer::InferenceTable;
use crate::ir::{ApplicationTy, Lifetime, Parameter, ParameterKind, ProjectionTy, QuantifiedTy, Ty, TypeName, UniverseIndex};
use crate::var::InferenceVariable;

verus! {

broadcast use vstd::std_specs::vec::group_vec_axioms;

/// The placeholder type of universe `u`.
pub open spec fn placeholder_ty(u: nat, x: Ty) -> bool {
    x is Apply && x->Apply_0.name == TypeName::ForAll(UniverseIndex { counter: u as usize })
        && x->Apply_0.parameters@.len() == 0
}

/// `u` is `t` (under `k` binders) with each free binder `i < n` replaced by
/// the placeholder of universe `base + 1 + i`, of the binder's kind.
pub open spec fn placed_ty(t: Ty, u: Ty, k: nat, base: nat, n: nat) -> bool
    decreases t,
{
    match t {
        Ty::Var(d) => if d < k || d - k >= n {
            u == t
        } else {
            placeholder_ty((base + 1 + d - k) as nat, u)
        },
        Ty::Apply(a) => u is Apply && u->Apply_0.name == a.name
            && placed_params(a.parameters@, u->Apply_0.parameters@, k, base, n),
        Ty::Projection(p) => u is Projection && u->Projection_0.associated_ty_id == p.associated_ty_id
            && placed_params(p.parameters@, u->Projection_0.parameters@, k, base, n),
        Ty::ForAll(q) => u is ForAll && u->ForAll_0.num_binders == q.num_binders
            && placed_ty(q.ty, u->ForAll_0.ty, (k + q.num_binders) as nat, base, n),
    }
}

pub open spec fn placed_param(p: Parameter, q: Parameter, k: nat, base: nat, n: nat) -> bool
    decreases p,
{
    match p {
        ParameterKind::Ty(t) => q is Ty && placed_ty(t, q->Ty_0, k, base, n),
        ParameterKind::Lifetime(Lifetime::Var(d)) => if d < k || d - k >= n {
            q == p
        } else {
            q == ParameterKind::<Ty, Lifetime>::Lifetime(Lifetime::ForAll(UniverseIndex { counter: (base + 1 + d - k) as usize }))
        },
        ParameterKind::Lifetime(Lifetime::ForAll(_)) => q == p,
    }
}

pub open spec fn placed_params(ps: Seq<Parameter>, qs: Seq<Parameter>, k: nat, base: nat, n: nat) -> bool
    decreases ps,
{
    ps.len() == qs.len() && (ps.len() == 0 || (placed_params(ps.drop_last(), qs.drop_last(), k, base, n)
        && placed_param(ps.last(), qs.last(), k, base, n)))
}

/// Whether `u` is `t` placed, at cutoff `k` or, when `deep`, at every cutoff
/// beyond `usize` (where no depth of `t` is free).
pub open spec fn placed_at(t: Ty, u: Ty, k: nat, deep: bool, base: nat, n: nat) -> bool {
    if deep {
        forall|c: nat| c > usize::MAX ==> #[trigger] placed_ty(t, u, c, base, n)
    } else {
        placed_ty(t, u, k, base, n)
    }
}

fn place_params(ps: &Vec<Parameter>, k: usize, deep: bool, base: usize, n: usize) -> (r: Vec<Parameter>)
    requires
        base + n <= usize::MAX,
    ensures
        !deep ==> placed_params(ps@, r@, k as nat, base as nat, n as nat),
        deep ==> forall|c: nat| c > usize::MAX ==> #[trigger] placed_params(ps@, r@, c, base as nat, n as nat),
    decreases ps, 0nat,
{
    let mut out: Vec<Parameter> = Vec::new();
    let mut i: usize = 0;
    while i < ps.len()
        invariant
            i <= ps@.len(),
            base + n <= usize::MAX,
            !deep ==> placed_params(ps@.subrange(0, i as int), out@, k as nat, base as nat, n as nat),
            deep ==> forall|c: nat| c > usize::MAX ==> #[trigger] placed_params(ps@.subrange(0, i as int), out@, c, base as nat, n as nat),
        decreases ps@.len() - i,
    {
        proof {
            assert(decreases_to!(ps => ps[i as int]));
        }
        let q = place_param(&ps[i], k, deep, base, n);
        let ghost prev = out@;
        out.push(q);
        proof {
            let pre = ps@.subrange(0, i + 1);
            assert(pre.drop_last() =~= ps@.subrange(0, i as int));
            assert(out@.drop_last() =~= prev);
            assert(pre.last() == ps@[i as int]);
            if deep {
                assert forall|c: nat| c > usize::MAX implies #[trigger] placed_params(pre, out@, c, base as nat, n as nat) by {
                    assert(placed_params(ps@.subrange(0, i as int), prev, c, base as nat, n as nat));
                    assert(placed_param(ps@[i as int], q, c, base as nat, n as nat));
                }
            }
        }
        i = i + 1;
    }
    proof {
        assert(ps@.subrange(0, ps@.len() as int) =~= ps@);
    }
    out
}

fn place_param(p: &Parameter, k: usize, deep: bool, base: usize, n: usize) -> (r: Parameter)
    requires
        base + n <= usize::MAX,
    ensures
        !deep ==> placed_param(*p, r, k as nat, base as nat, n as nat),
        deep ==> forall|c: nat| c > usize::MAX ==> #[trigger] placed_param(*p, r, c, base as nat, n as nat),
    decreases p, 2nat,
{
    match p {
        ParameterKind::Ty(t) => {
            let u = place_ty(t, k, deep, base, n);
            let r = ParameterKind::Ty(u);
            if deep {
                assert forall|c: nat| c > usize::MAX implies #[trigger] placed_param(*p, r, c, base as nat, n as nat) by {
                    assert(placed_ty(*t, u, c, base as nat, n as nat));
                }
            }
            r
        },
        ParameterKind::Lifetime(Lifetime::Var(d)) => {
            if deep || *d < k || *d - k >= n {
                let r = ParameterKind::Lifetime(Lifetime::Var(*d));
                assert forall|c: nat| c > usize::MAX implies #[trigger] placed_param(*p, r, c, base as nat, n as nat) by {}
                r
            } else {
                ParameterKind::Lifetime(Lifetime::ForAll(UniverseIndex { counter: base + 1 + (*d - k) }))
            }
        },
        ParameterKind::Lifetime(Lifetime::ForAll(u)) => {
            let r = ParameterKind::Lifetime(Lifetime::ForAll(*u));
            assert forall|c: nat| c > usize::MAX implies #[trigger] placed_param(*p, r, c, base as nat, n as nat) by {}
            r
        },
    }
}

/// Puts placeholders of universes `base + 1 ..= base + n` in place of the
/// free binders `0 .. n` of `t` standing under `k` binders (under more
/// binders than `usize` counts when `deep`).
fn place_ty(t: &Ty, k: usize, deep: bool, base: usize, n: usize) -> (r: Ty)
    requires
        base + n <= usize::MAX,
    ensures
        !deep ==> placed_ty(*t, r, k as nat, base as nat, n as nat),
        deep ==> forall|c: nat| c > usize::MAX ==> #[trigger] placed_ty(*t, r, c, base as nat, n as nat),
    decreases t, 1nat,
{
    match t {
        Ty::Var(d) => {
            if deep || *d < k || *d - k >= n {
                let r = Ty::Var(*d);
                assert forall|c: nat| c > usize::MAX implies #[trigger] placed_ty(*t, r, c, base as nat, n as nat) by {}
                r
            } else {
                Ty::Apply(ApplicationTy {
                    name: TypeName::ForAll(UniverseIndex { counter: base + 1 + (*d - k) }),
                    parameters: Vec::new(),
                })
            }
        },
        Ty::Apply(a) => {
            let ps = place_params(&a.parameters, k, deep, base, n);
            let r = Ty::Apply(ApplicationTy { name: a.name, parameters: ps });
            if deep {
                assert forall|c: nat| c > usize::MAX implies #[trigger] placed_ty(*t, r, c, base as nat, n as nat) by {
                    assert(placed_params(a.parameters@, ps@, c, base as nat, n as nat));
                }
            }
            r
        },
        Ty::Projection(p) => {
            let ps = place_params(&p.parameters, k, deep, base, n);
            let r = Ty::Projection(ProjectionTy { associated_ty_id: p.associated_ty_id, parameters: ps });
            if deep {
                assert forall|c: nat| c > usize::MAX implies #[trigger] placed_ty(*t, r, c, base as nat, n as nat) by {
                    assert(placed_params(p.parameters@, ps@, c, base as nat, n as nat));
                }
            }
            r
        },
        Ty::ForAll(q) => {
            let inner_deep = deep || q.num_binders > usize::MAX - k;
            let k2 = if inner_deep { k } else { k + q.num_binders };
            let u = place_ty(&q.ty, k2, inner_deep, base, n);
            let r = Ty::ForAll(Box::new(QuantifiedTy { num_binders: q.num_binders, ty: u }));
            if deep {
                assert forall|c: nat| c > usize::MAX implies #[trigger] placed_ty(*t, r, c, base as nat, n as nat) by {
                    assert(placed_ty(q.ty, u, (c + q.num_binders) as nat, base as nat, n as nat));
                }
            } else if inner_deep {
                assert(placed_ty(q.ty, u, (k + q.num_binders) as nat, base as nat, n as nat));
            }
            r
        },
    }
}

/// A value whose free inference variables became placeholders, with the
/// way back.
pub struct Inverted {
    pub value: Ty,
    /// For each placeholder, in order of its universe, the variable it
    /// replaced.
    pub placeholders: Vec<(UniverseIndex, ParameterKind<InferenceVariable, InferenceVariable>)>,
}

impl InferenceTable {
    /// Turns "some choice of the free variables of `value`" into "every
    /// choice": each free variable class (bound variables first replaced by
    /// their values) becomes a placeholder in a fresh universe of its own,
    /// above every universe so far. `None` when `value` cannot be
    /// canonicalized or the universes would leave `usize`.
    pub fn invert(&mut self, value: &Ty) -> (r: Option<Inverted>)
        requires
            old(self).wf(),
        ensures
            final(self).wf(),
            final(self).open_snapshots() == old(self).open_snapshots(),
            final(self)@.values == old(self)@.values,
            final(self)@.roots == old(self)@.roots,
            final(self)@.vars == old(self)@.vars,
            r is None ==> final(self)@ == old(self)@,
            walkable(old(self)@.values, *value, 0, 0, old(self)@.values.len(), old(self)@.values.len())
                && old(self)@.max_universe + old(self)@.values.len() <= usize::MAX ==> r is Some,
            r matches Some(inv) ==> {
                let n = inv.placeholders@.len();
                let order = inv.placeholders@.map_values(
                    |e: (UniverseIndex, ParameterKind<InferenceVariable, InferenceVariable>)| var_index(e.1),
                );
                &&& final(self)@.max_universe == old(self)@.max_universe + n
                &&& distinct(order)
                &&& forall|i: int| 0 <= i < n ==> (#[trigger] inv.placeholders@[i]).0.counter == old(self)@.max_universe + 1 + i
                &&& exists|cv: Ty| #[trigger] canon_ty(old(self)@.values, old(self)@.roots, *value, cv, 0, 0, old(self)@.values.len(), order)
                    && placed_ty(cv, inv.value, 0, old(self)@.max_universe, n as nat)
            },
    {
        let c = match self.canonicalize(value) {
            Some(c) => c,
            None => return None,
        };
        let Canonicalized { quantified, free_vars } = c;
        let n = free_vars.len();
        proof {
            let forder = free_vars@.map_values(|p: ParameterKind<InferenceVariable, InferenceVariable>| var_index(p));
            lemma_distinct_bounded(forder, old(self)@.values.len());
        }
        let base = self.max_universe().counter;
        if n > usize::MAX - base {
            return None;
        }
        let placed = place_ty(&quantified.value, 0, false, base, n);
        let mut placeholders: Vec<(UniverseIndex, ParameterKind<InferenceVariable, InferenceVariable>)> = Vec::new();
        let mut i: usize = 0;
        while i < n
            invariant
                i <= n,
                n == free_vars@.len(),
                base + n <= usize::MAX,
                self.wf(),
                self.open_snapshots() == old(self).open_snapshots(),
                self@.values == old(self)@.values,
                self@.roots == old(self)@.roots,
                self@.vars == old(self)@.vars,
                self@.max_universe == base + i,
                base == old(self)@.max_universe,
                placeholders@.len() == i,
                forall|j: int| 0 <= j < i ==> (#[trigger] placeholders@[j]).0.counter == base + 1 + j,
                forall|j: int| 0 <= j < i ==> #[trigger] placeholders@[j].1 == free_vars@[j],
            decreases n - i,
        {
            let u = self.new_universe();
            placeholders.push((u, free_vars[i]));
            i = i + 1;
        }
        proof {
            let order = placeholders@.map_values(
                |e: (UniverseIndex, ParameterKind<InferenceVariable, InferenceVariable>)| var_index(e.1),
            );
            let forder = free_vars@.map_values(|p: ParameterKind<InferenceVariable, InferenceVariable>| var_index(p));
            assert(order =~= forder);
            assert(canon_ty(old(self)@.values, old(self)@.roots, *value, quantified.value, 0, 0, old(self)@.values.len(), order));
        }
        Some(Inverted { value: placed, placeholders })
    }
}

} // verus!

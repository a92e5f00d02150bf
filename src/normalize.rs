use vstd::prelude::*;
use crate::infer::InferenceTable;
use crate::ir::{ApplicationTy, Lifetime, Parameter, ParameterKind, ProjectionTy, QuantifiedTy, Ty};
use crate::var::{InferenceValue, InferenceVariable};

verus! {

broadcast use vstd::std_specs::vec::group_vec_axioms;

/// `u` is `t` (under `k` binders of its own and `off` more outside) with each
/// bound free variable replaced, recursively, by its value (`fuel` steps
/// left); unbound and unknown variables stay, moved under the `off` binders.
pub open spec fn resolved_ty(vals: Seq<InferenceValue>, t: Ty, u: Ty, k: nat, off: nat, fuel: nat) -> bool
    decreases fuel, t, 1nat,
{
    match t {
        Ty::Var(d) => if d < k {
            u == t
        } else if d - k >= vals.len() || vals[d - k] is Unbound {
            u is Var && u->Var_0 == d + off
        } else {
            match vals[d - k] {
                InferenceValue::Bound(ParameterKind::Ty(w)) => fuel > 0 && resolved_ty(vals, w, u, 0, off + k, (fuel - 1) as nat),
                _ => false,
            }
        },
        Ty::Apply(a) => u is Apply && u->Apply_0.name == a.name
            && resolved_params(vals, a.parameters@, u->Apply_0.parameters@, k, off, fuel),
        Ty::Projection(p) => u is Projection && u->Projection_0.associated_ty_id == p.associated_ty_id
            && resolved_params(vals, p.parameters@, u->Projection_0.parameters@, k, off, fuel),
        Ty::ForAll(q) => u is ForAll && u->ForAll_0.num_binders == q.num_binders
            && resolved_ty(vals, q.ty, u->ForAll_0.ty, (k + q.num_binders) as nat, off, fuel),
    }
}

pub open spec fn resolved_param(vals: Seq<InferenceValue>, p: Parameter, q: Parameter, k: nat, off: nat, fuel: nat) -> bool
    decreases fuel, p, 2nat,
{
    match p {
        ParameterKind::Ty(t) => q is Ty && resolved_ty(vals, t, q->Ty_0, k, off, fuel),
        ParameterKind::Lifetime(Lifetime::Var(d)) => if d < k {
            q == p
        } else if d - k >= vals.len() || vals[d - k] is Unbound {
            q matches ParameterKind::Lifetime(Lifetime::Var(e)) && e == d + off
        } else {
            match vals[d - k] {
                InferenceValue::Bound(ParameterKind::Lifetime(l)) => fuel > 0 && resolved_param(
                    vals, ParameterKind::Lifetime(l), q, 0, off + k, (fuel - 1) as nat),
                _ => false,
            }
        },
        ParameterKind::Lifetime(Lifetime::ForAll(_)) => q == p,
    }
}

pub open spec fn resolved_params(vals: Seq<InferenceValue>, ps: Seq<Parameter>, qs: Seq<Parameter>, k: nat, off: nat, fuel: nat) -> bool
    decreases fuel, ps, 0nat,
{
    ps.len() == qs.len() && (ps.len() == 0 || (resolved_params(vals, ps.drop_last(), qs.drop_last(), k, off, fuel)
        && resolved_param(vals, ps.last(), qs.last(), k, off, fuel)))
}

/// Every bound variable met in `t` (under `k` binders, `off` more outside)
/// resolves within `fuel` steps to a value of its kind, and every depth
/// written out stays within `usize` with room for `extra` more.
pub open spec fn walkable(vals: Seq<InferenceValue>, t: Ty, k: nat, off: nat, fuel: nat, extra: nat) -> bool
    decreases fuel, t, 1nat,
{
    match t {
        Ty::Var(d) => if d < k {
            true
        } else if d - k >= vals.len() || vals[d - k] is Unbound {
            d + off + extra <= usize::MAX
        } else {
            match vals[d - k] {
                InferenceValue::Bound(ParameterKind::Ty(w)) => fuel > 0 && off + k <= usize::MAX && walkable(
                    vals, w, 0, off + k, (fuel - 1) as nat, extra),
                _ => false,
            }
        },
        Ty::Apply(a) => walkable_params(vals, a.parameters@, k, off, fuel, extra),
        Ty::Projection(p) => walkable_params(vals, p.parameters@, k, off, fuel, extra),
        Ty::ForAll(q) => k + q.num_binders <= usize::MAX && walkable(vals, q.ty, (k + q.num_binders) as nat, off, fuel, extra),
    }
}

pub open spec fn walkable_param(vals: Seq<InferenceValue>, p: Parameter, k: nat, off: nat, fuel: nat, extra: nat) -> bool
    decreases fuel, p, 2nat,
{
    match p {
        ParameterKind::Ty(t) => walkable(vals, t, k, off, fuel, extra),
        ParameterKind::Lifetime(Lifetime::Var(d)) => if d < k {
            true
        } else if d - k >= vals.len() || vals[d - k] is Unbound {
            d + off + extra <= usize::MAX
        } else {
            match vals[d - k] {
                InferenceValue::Bound(ParameterKind::Lifetime(l)) => fuel > 0 && off + k <= usize::MAX && walkable_param(
                    vals, ParameterKind::Lifetime(l), 0, off + k, (fuel - 1) as nat, extra),
                _ => false,
            }
        },
        ParameterKind::Lifetime(Lifetime::ForAll(_)) => true,
    }
}

pub open spec fn walkable_params(vals: Seq<InferenceValue>, ps: Seq<Parameter>, k: nat, off: nat, fuel: nat, extra: nat) -> bool
    decreases fuel, ps, 0nat,
{
    ps.len() == 0 || (walkable_params(vals, ps.drop_last(), k, off, fuel, extra) && walkable_param(
        vals,
        ps.last(),
        k,
        off,
        fuel,
        extra,
    ))
}

/// A list is walkable exactly when each of its entries is.
pub proof fn lemma_walkable_params(vals: Seq<InferenceValue>, ps: Seq<Parameter>, k: nat, off: nat, fuel: nat, extra: nat)
    ensures
        walkable_params(vals, ps, k, off, fuel, extra) <==> forall|i: int| 0 <= i < ps.len() ==> #[trigger] walkable_param(
            vals, ps[i], k, off, fuel, extra),
    decreases ps.len(),
{
    if ps.len() > 0 {
        let q = ps.drop_last();
        lemma_walkable_params(vals, q, k, off, fuel, extra);
        assert forall|i: int| 0 <= i < q.len() implies q[i] == ps[i] by {}
        if walkable_params(vals, ps, k, off, fuel, extra) {
            assert forall|i: int| 0 <= i < ps.len() implies #[trigger] walkable_param(vals, ps[i], k, off, fuel, extra) by {
                if i < q.len() {
                    assert(walkable_param(vals, q[i], k, off, fuel, extra));
                }
            }
        }
        if forall|i: int| 0 <= i < ps.len() ==> #[trigger] walkable_param(vals, ps[i], k, off, fuel, extra) {
            assert(walkable_param(vals, ps[ps.len() - 1], k, off, fuel, extra));
            assert forall|i: int| 0 <= i < q.len() implies #[trigger] walkable_param(vals, q[i], k, off, fuel, extra) by {
                assert(walkable_param(vals, ps[i], k, off, fuel, extra));
            }
        }
    }
}

pub open spec fn keeps_table(before: &InferenceTable, after: &InferenceTable) -> bool {
    &&& after@ == before@
    &&& after.open_snapshots() == before.open_snapshots()
    &&& after.wf()
}

fn checked_sum(a: usize, b: usize) -> (r: Option<usize>)
    ensures
        r matches Some(x) ==> x == a + b,
        r is None ==> a + b > usize::MAX,
{
    if a <= usize::MAX - b { Some(a + b) } else { None }
}

impl InferenceTable {
    fn resolve_param(&mut self, p: &Parameter, k: usize, off: usize, fuel: usize) -> (r: Option<Parameter>)
        requires
            old(self).wf(),
        ensures
            keeps_table(old(self), final(self)),
            r matches Some(q) ==> resolved_param(old(self)@.values, *p, q, k as nat, off as nat, fuel as nat),
            r is Some <==> walkable_param(old(self)@.values, *p, k as nat, off as nat, fuel as nat, 0),
        decreases fuel, p, 2nat,
    {
        match p {
            ParameterKind::Ty(t) => match self.resolve_ty(t, k, off, fuel) {
                Some(u) => Some(ParameterKind::Ty(u)),
                None => None,
            },
            ParameterKind::Lifetime(Lifetime::ForAll(u)) => Some(ParameterKind::Lifetime(Lifetime::ForAll(*u))),
            ParameterKind::Lifetime(Lifetime::Var(d)) => {
                if *d < k {
                    return Some(ParameterKind::Lifetime(Lifetime::Var(*d)));
                }
                let n = self.num_vars();
                let bound = if *d - k < n {
                    match self.probe(InferenceVariable::from_depth(*d - k)) {
                        InferenceValue::Unbound(_) => None,
                        InferenceValue::Bound(v) => Some(v),
                    }
                } else {
                    None
                };
                match bound {
                    None => match checked_sum(*d, off) {
                        Some(e) => Some(ParameterKind::Lifetime(Lifetime::Var(e))),
                        None => None,
                    },
                    Some(ParameterKind::Lifetime(l)) => {
                        if fuel == 0 {
                            return None;
                        }
                        let off2 = match checked_sum(off, k) {
                            Some(x) => x,
                            None => return None,
                        };
                        let lp = ParameterKind::Lifetime(l);
                        match self.resolve_param(&lp, 0, off2, fuel - 1) {
                            Some(q) => {
                                assert(resolved_param(old(self)@.values, *p, q, k as nat, off as nat, fuel as nat));
                                Some(q)
                            },
                            None => None,
                        }
                    },
                    Some(ParameterKind::Ty(_)) => None,
                }
            },
        }
    }

    fn resolve_params(&mut self, ps: &Vec<Parameter>, k: usize, off: usize, fuel: usize) -> (r: Option<Vec<Parameter>>)
        requires
            old(self).wf(),
        ensures
            keeps_table(old(self), final(self)),
            r matches Some(qs) ==> resolved_params(old(self)@.values, ps@, qs@, k as nat, off as nat, fuel as nat),
            r is Some <==> walkable_params(old(self)@.values, ps@, k as nat, off as nat, fuel as nat, 0),
        decreases fuel, ps, 0nat,
    {
        let mut out: Vec<Parameter> = Vec::new();
        let mut i: usize = 0;
        while i < ps.len()
            invariant
                i <= ps@.len(),
                keeps_table(old(self), self),
                resolved_params(old(self)@.values, ps@.subrange(0, i as int), out@, k as nat, off as nat, fuel as nat),
                walkable_params(old(self)@.values, ps@.subrange(0, i as int), k as nat, off as nat, fuel as nat, 0),
            decreases ps@.len() - i,
        {
            proof {
                assert(decreases_to!(ps => ps[i as int]));
            }
            let q = match self.resolve_param(&ps[i], k, off, fuel) {
                Some(q) => q,
                None => {
                    proof {
                        lemma_walkable_params(old(self)@.values, ps@, k as nat, off as nat, fuel as nat, 0);
                    }
                    return None;
                },
            };
            let ghost prev = out@;
            out.push(q);
            proof {
                let pre = ps@.subrange(0, i + 1);
                assert(pre.drop_last() =~= ps@.subrange(0, i as int));
                assert(out@.drop_last() =~= prev);
                assert(pre.last() == ps@[i as int]);
            }
            i = i + 1;
        }
        proof {
            assert(ps@.subrange(0, ps@.len() as int) =~= ps@);
        }
        Some(out)
    }

    fn resolve_ty(&mut self, t: &Ty, k: usize, off: usize, fuel: usize) -> (r: Option<Ty>)
        requires
            old(self).wf(),
        ensures
            keeps_table(old(self), final(self)),
            r matches Some(u) ==> resolved_ty(old(self)@.values, *t, u, k as nat, off as nat, fuel as nat),
            r is Some <==> walkable(old(self)@.values, *t, k as nat, off as nat, fuel as nat, 0),
        decreases fuel, t, 1nat,
    {
        match t {
            Ty::Var(d) => {
                if *d < k {
                    return Some(Ty::Var(*d));
                }
                let n = self.num_vars();
                let bound = if *d - k < n {
                    match self.probe(InferenceVariable::from_depth(*d - k)) {
                        InferenceValue::Unbound(_) => None,
                        InferenceValue::Bound(v) => Some(v),
                    }
                } else {
                    None
                };
                match bound {
                    None => match checked_sum(*d, off) {
                        Some(e) => Some(Ty::Var(e)),
                        None => None,
                    },
                    Some(ParameterKind::Ty(w)) => {
                        if fuel == 0 {
                            return None;
                        }
                        let off2 = match checked_sum(off, k) {
                            Some(x) => x,
                            None => return None,
                        };
                        match self.resolve_ty(&w, 0, off2, fuel - 1) {
                            Some(u) => {
                                assert(resolved_ty(old(self)@.values, *t, u, k as nat, off as nat, fuel as nat));
                                Some(u)
                            },
                            None => None,
                        }
                    },
                    Some(ParameterKind::Lifetime(_)) => None,
                }
            },
            Ty::Apply(a) => match self.resolve_params(&a.parameters, k, off, fuel) {
                Some(ps) => Some(Ty::Apply(ApplicationTy { name: a.name, parameters: ps })),
                None => None,
            },
            Ty::Projection(p) => match self.resolve_params(&p.parameters, k, off, fuel) {
                Some(ps) => Some(Ty::Projection(ProjectionTy { associated_ty_id: p.associated_ty_id, parameters: ps })),
                None => None,
            },
            Ty::ForAll(q) => {
                let k2 = match checked_sum(k, q.num_binders) {
                    Some(x) => x,
                    None => return None,
                };
                match self.resolve_ty(&q.ty, k2, off, fuel) {
                    Some(u) => Some(Ty::ForAll(Box::new(QuantifiedTy { num_binders: q.num_binders, ty: u }))),
                    None => None,
                }
            },
        }
    }

    /// `value` (standing under `binders` binders) with every bound inference
    /// variable replaced, recursively, by its value. `None` when a chain of
    /// bindings is longer than the number of variables, a depth leaves
    /// `usize`, or a variable is bound to a value of the other kind.
    pub fn normalize_deep(&mut self, value: &Ty, binders: usize) -> (r: Option<Ty>)
        requires
            old(self).wf(),
        ensures
            keeps_table(old(self), final(self)),
            r matches Some(u) ==> resolved_ty(old(self)@.values, *value, u, binders as nat, 0, old(self)@.values.len()),
            r is Some <==> walkable(old(self)@.values, *value, binders as nat, 0, old(self)@.values.len(), 0),
    {
        let n = self.num_vars();
        self.resolve_ty(value, binders, 0, n)
    }
}

} // verus!

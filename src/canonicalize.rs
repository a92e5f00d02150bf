use vstd::prelude::*;
use crate::infer::InferenceTable;
use crate::normalize::{lemma_walkable_params, walkable, walkable_param, walkable_params};
use crate::ir::{
    shift_ty, shifted_param, shifted_params, shifted_ty, shift_fits_ty, ApplicationTy, Canonical, Lifetime, Parameter, ParameterKind, ProjectionTy,
    QuantifiedTy, Ty, UniverseIndex,
};
use crate::var::{InferenceValue, InferenceVariable};

verus! {

broadcast use vstd::std_specs::vec::group_vec_axioms;

/// `u` stands for the free variable numbered `v` (met under `k` binders of
/// the term and `off` binders outside it) in the canonical form whose binders
/// are the classes listed in `order`.
pub open spec fn canon_var(vals: Seq<InferenceValue>, roots: Seq<nat>, v: nat, u: nat, k: nat, off: nat, order: Seq<nat>) -> bool {
    &&& u >= off + k
    &&& u - off - k < order.len()
    &&& order[u - off - k] == roots[v as int]
}

/// `u` is `t` (under `k` binders, with `off` more outside) with each free
/// unbound variable replaced by the binder of its class in `order`, and each
/// bound variable by the canonical form of its value (`fuel` steps left).
pub open spec fn canon_ty(vals: Seq<InferenceValue>, roots: Seq<nat>, t: Ty, u: Ty, k: nat, off: nat, fuel: nat, order: Seq<nat>) -> bool
    decreases fuel, t, 1nat,
{
    match t {
        Ty::Var(d) => if d < k || d - k >= vals.len() {
            u == t
        } else {
            let v = (d - k) as nat;
            match vals[v as int] {
                InferenceValue::Unbound(_) => u is Var && canon_var(vals, roots, v, u->Var_0 as nat, k, off, order),
                InferenceValue::Bound(ParameterKind::Ty(w)) => fuel > 0 && canon_ty(vals, roots, w, u, 0, (off + k) as nat, (fuel - 1) as nat, order),
                InferenceValue::Bound(ParameterKind::Lifetime(_)) => false,
            }
        },
        Ty::Apply(a) => u is Apply && u->Apply_0.name == a.name
            && canon_params(vals, roots, a.parameters@, u->Apply_0.parameters@, k, off, fuel, order),
        Ty::Projection(p) => u is Projection && u->Projection_0.associated_ty_id == p.associated_ty_id
            && canon_params(vals, roots, p.parameters@, u->Projection_0.parameters@, k, off, fuel, order),
        Ty::ForAll(q) => u is ForAll && u->ForAll_0.num_binders == q.num_binders
            && canon_ty(vals, roots, q.ty, u->ForAll_0.ty, (k + q.num_binders) as nat, off, fuel, order),
    }
}

pub open spec fn canon_param(vals: Seq<InferenceValue>, roots: Seq<nat>, p: Parameter, q: Parameter, k: nat, off: nat, fuel: nat, order: Seq<nat>) -> bool
    decreases fuel, p, 2nat,
{
    match p {
        ParameterKind::Ty(t) => q is Ty && canon_ty(vals, roots, t, q->Ty_0, k, off, fuel, order),
        ParameterKind::Lifetime(Lifetime::Var(d)) => if d < k || d - k >= vals.len() {
            q == p
        } else {
            let v = (d - k) as nat;
            match vals[v as int] {
                InferenceValue::Unbound(_) => q matches ParameterKind::Lifetime(Lifetime::Var(e)) && canon_var(vals, roots, v, e as nat, k, off, order),
                InferenceValue::Bound(ParameterKind::Lifetime(l)) => fuel > 0 && canon_param(vals, roots, ParameterKind::Lifetime(l), q, 0, (off + k) as nat, (fuel - 1) as nat, order),
                InferenceValue::Bound(ParameterKind::Ty(_)) => false,
            }
        },
        ParameterKind::Lifetime(Lifetime::ForAll(_)) => q == p,
    }
}

pub open spec fn canon_params(vals: Seq<InferenceValue>, roots: Seq<nat>, ps: Seq<Parameter>, qs: Seq<Parameter>, k: nat, off: nat, fuel: nat, order: Seq<nat>) -> bool
    decreases fuel, ps, 0nat,
{
    ps.len() == qs.len() && (ps.len() == 0 || (canon_params(vals, roots, ps.drop_last(), qs.drop_last(), k, off, fuel, order)
        && canon_param(vals, roots, ps.last(), qs.last(), k, off, fuel, order)))
}

/// `acc` with class `r` added at the end unless it is listed already.
pub open spec fn add_class(acc: Seq<nat>, r: nat) -> Seq<nat> {
    if acc.contains(r) { acc } else { acc.push(r) }
}

/// `acc` followed by the classes of the free unbound variables of `t` (under
/// `k` binders; bound variables looked through with `fuel` steps left) that
/// `acc` does not list yet, in order of first occurrence, left to right.
pub open spec fn collect_ty(vals: Seq<InferenceValue>, roots: Seq<nat>, t: Ty, k: nat, fuel: nat, acc: Seq<nat>) -> Seq<nat>
    decreases fuel, t, 1nat,
{
    match t {
        Ty::Var(d) => if d < k || d - k >= vals.len() {
            acc
        } else {
            match vals[d - k] {
                InferenceValue::Unbound(_) => add_class(acc, roots[d - k]),
                InferenceValue::Bound(ParameterKind::Ty(w)) => if fuel > 0 { collect_ty(vals, roots, w, 0, (fuel - 1) as nat, acc) } else { acc },
                InferenceValue::Bound(ParameterKind::Lifetime(_)) => acc,
            }
        },
        Ty::Apply(a) => collect_params(vals, roots, a.parameters@, k, fuel, acc),
        Ty::Projection(p) => collect_params(vals, roots, p.parameters@, k, fuel, acc),
        Ty::ForAll(q) => collect_ty(vals, roots, q.ty, (k + q.num_binders) as nat, fuel, acc),
    }
}

pub open spec fn collect_param(vals: Seq<InferenceValue>, roots: Seq<nat>, p: Parameter, k: nat, fuel: nat, acc: Seq<nat>) -> Seq<nat>
    decreases fuel, p, 2nat,
{
    match p {
        ParameterKind::Ty(t) => collect_ty(vals, roots, t, k, fuel, acc),
        ParameterKind::Lifetime(Lifetime::Var(d)) => if d < k || d - k >= vals.len() {
            acc
        } else {
            match vals[d - k] {
                InferenceValue::Unbound(_) => add_class(acc, roots[d - k]),
                InferenceValue::Bound(ParameterKind::Lifetime(l)) => if fuel > 0 {
                    collect_param(vals, roots, ParameterKind::Lifetime(l), 0, (fuel - 1) as nat, acc)
                } else {
                    acc
                },
                InferenceValue::Bound(ParameterKind::Ty(_)) => acc,
            }
        },
        ParameterKind::Lifetime(Lifetime::ForAll(_)) => acc,
    }
}

pub open spec fn collect_params(vals: Seq<InferenceValue>, roots: Seq<nat>, ps: Seq<Parameter>, k: nat, fuel: nat, acc: Seq<nat>) -> Seq<nat>
    decreases fuel, ps, 0nat,
{
    if ps.len() == 0 {
        acc
    } else {
        collect_param(vals, roots, ps.last(), k, fuel, collect_params(vals, roots, ps.drop_last(), k, fuel, acc))
    }
}

/// `o` starts with `base`.
pub open spec fn extends(o: Seq<nat>, base: Seq<nat>) -> bool {
    base.len() <= o.len() && forall|i: int| 0 <= i < base.len() ==> o[i] == base[i]
}

/// No class is listed twice.
pub open spec fn distinct(order: Seq<nat>) -> bool {
    forall|i: int, j: int| 0 <= i < order.len() && 0 <= j < order.len() && i != j ==> order[i] != order[j]
}

/// Every listed class is below `n`.
pub open spec fn bounded(order: Seq<nat>, n: nat) -> bool {
    forall|i: int| 0 <= i < order.len() ==> order[i] < n
}

/// A list of distinct numbers below `n` has at most `n` entries.
pub(crate) proof fn lemma_distinct_bounded(s: Seq<nat>, n: nat)
    requires
        distinct(s),
        bounded(s, n),
    ensures
        s.len() <= n,
    decreases n,
{
    if n == 0 {
        if s.len() > 0 {
            assert(s[0] < 0);
        }
    } else if exists|j: int| 0 <= j < s.len() && s[j] == n - 1 {
        let j = choose|j: int| 0 <= j < s.len() && s[j] == n - 1;
        let t = s.remove(j);
        assert forall|i: int| 0 <= i < t.len() implies t[i] < n - 1 by {
            let src = if i < j { i } else { i + 1 };
            assert(t[i] == s[src]);
            assert(src != j);
        }
        assert forall|a: int, b: int| 0 <= a < t.len() && 0 <= b < t.len() && a != b implies t[a] != t[b] by {
            let sa = if a < j { a } else { a + 1 };
            let sb = if b < j { b } else { b + 1 };
            assert(t[a] == s[sa] && t[b] == s[sb]);
        }
        lemma_distinct_bounded(t, (n - 1) as nat);
    } else {
        assert forall|i: int| 0 <= i < s.len() implies s[i] < n - 1 by {
            assert(s[i] != n - 1);
        }
        lemma_distinct_bounded(s, (n - 1) as nat);
    }
}

/// The index of the variable behind a tagged variable.
pub open spec fn var_index(p: ParameterKind<InferenceVariable, InferenceVariable>) -> nat {
    match p {
        ParameterKind::Ty(v) => v.index as nat,
        ParameterKind::Lifetime(v) => v.index as nat,
    }
}

/// The kinds of binders agree with the kinds of the free variables.
pub open spec fn same_kind(b: ParameterKind<(), ()>, p: ParameterKind<InferenceVariable, InferenceVariable>) -> bool {
    (b is Ty) == (p is Ty)
}

/// A canonical form together with the variables its binders stand for.
pub struct Canonicalized {
    pub quantified: Canonical<Ty>,
    /// For each binder, in order, the variable (class representative) it
    /// replaced.
    pub free_vars: Vec<ParameterKind<InferenceVariable, InferenceVariable>>,
}

fn fits_add(a: usize, b: usize) -> (r: Option<usize>)
    ensures
        r matches Some(x) ==> x == a + b,
        r is None ==> a + b > usize::MAX,
{
    if a <= usize::MAX - b { Some(a + b) } else { None }
}

impl InferenceTable {
    /// The binder position of the class of unbound variable `v`, adding the
    /// class (with kind `kind`) to the end of `order` when it is new.
    fn binder_of(&mut self, v: usize, kind: ParameterKind<(), ()>, order: &mut Vec<InferenceVariable>, kinds: &mut Vec<ParameterKind<(), ()>>) -> (r: usize)
        requires
            old(self).wf(),
            v < old(self)@.values.len(),
            distinct(old(order)@.map_values(|x: InferenceVariable| x.index as nat)),
            bounded(old(order)@.map_values(|x: InferenceVariable| x.index as nat), old(self)@.values.len()),
            old(kinds)@.len() == old(order)@.len(),
        ensures
            bounded(final(order)@.map_values(|x: InferenceVariable| x.index as nat), old(self)@.values.len()),
            final(self)@ == old(self)@,
            final(self).open_snapshots() == old(self).open_snapshots(),
            final(self).wf(),
            extends(final(order)@.map_values(|x: InferenceVariable| x.index as nat), old(order)@.map_values(|x: InferenceVariable| x.index as nat)),
            distinct(final(order)@.map_values(|x: InferenceVariable| x.index as nat)),
            final(kinds)@.len() == final(order)@.len(),
            r < final(order)@.len(),
            final(order)@[r as int].index == old(self)@.roots[v as int],
            final(order)@.map_values(|x: InferenceVariable| x.index as nat) == add_class(
                old(order)@.map_values(|x: InferenceVariable| x.index as nat), old(self)@.roots[v as int]),
    {
        let _n = self.num_vars();
        let root = self.root_of(InferenceVariable::from_depth(v));
        let mut i: usize = 0;
        while i < order.len()
            invariant
                i <= order@.len(),
                self@ == old(self)@,
                self.open_snapshots() == old(self).open_snapshots(),
                self.wf(),
                order@ == old(order)@,
                kinds@ == old(kinds)@,
                distinct(old(order)@.map_values(|x: InferenceVariable| x.index as nat)),
                bounded(old(order)@.map_values(|x: InferenceVariable| x.index as nat), old(self)@.values.len()),
                old(kinds)@.len() == old(order)@.len(),
                root.index == old(self)@.roots[v as int],
                root.index < old(self)@.values.len(),
                forall|j: int| 0 <= j < i ==> order@[j].index != root.index,
            decreases order@.len() - i,
        {
            if order[i].index == root.index {
                proof {
                    assert(order@.map_values(|x: InferenceVariable| x.index as nat)[i as int] == root.index);
                    assert(extends(order@.map_values(|x: InferenceVariable| x.index as nat), old(order)@.map_values(|x: InferenceVariable| x.index as nat)));
                }
                return i;
            }
            i = i + 1;
        }
        order.push(root);
        kinds.push(kind);
        proof {
            let o = order@.map_values(|x: InferenceVariable| x.index as nat);
            let b = old(order)@.map_values(|x: InferenceVariable| x.index as nat);
            assert(!b.contains(root.index as nat)) by {
                if b.contains(root.index as nat) {
                    let j = choose|j: int| 0 <= j < b.len() && b[j] == root.index;
                    assert(old(order)@[j].index == root.index);
                }
            }
            assert(o =~= b.push(root.index as nat));
            assert forall|a: int| 0 <= a < o.len() implies o[a] < old(self)@.values.len() by {
                if a < b.len() {
                    assert(o[a] == b[a]);
                }
            }
            assert forall|a: int, c: int| 0 <= a < o.len() && 0 <= c < o.len() && a != c implies o[a] != o[c] by {
                if a < b.len() && c < b.len() {
                    assert(o[a] == b[a] && o[c] == b[c]);
                }
            }
        }
        order.len() - 1
    }
}

/// The entries of `v` as natural numbers.
pub open spec fn as_nats(v: Seq<InferenceVariable>) -> Seq<nat> {
    v.map_values(|x: InferenceVariable| x.index as nat)
}

impl InferenceTable {
    fn canon_var_exec(&mut self, d: usize, k: usize, off: usize, order: &mut Vec<InferenceVariable>, kinds: &mut Vec<ParameterKind<(), ()>>, kind: ParameterKind<(), ()>) -> (r: Option<usize>)
        requires
            old(self).wf(),
            k <= d,
            d - k < old(self)@.values.len(),
            old(self)@.values[d - k] is Unbound,
            distinct(as_nats(old(order)@)),
            bounded(as_nats(old(order)@), old(self)@.values.len()),
            old(kinds)@.len() == old(order)@.len(),
        ensures
            final(self)@ == old(self)@,
            final(self).open_snapshots() == old(self).open_snapshots(),
            final(self).wf(),
            extends(as_nats(final(order)@), as_nats(old(order)@)),
            distinct(as_nats(final(order)@)),
            bounded(as_nats(final(order)@), old(self)@.values.len()),
            final(kinds)@.len() == final(order)@.len(),
            d + off + old(self)@.values.len() <= usize::MAX ==> r is Some,
            as_nats(final(order)@) == add_class(as_nats(old(order)@), old(self)@.roots[d - k]),
            r matches Some(e) ==> forall|o: Seq<nat>| extends(o, as_nats(final(order)@)) ==> #[trigger] canon_var(
                old(self)@.values, old(self)@.roots, (d - k) as nat, e as nat, k as nat, off as nat, o),
    {
        let pos = self.binder_of(d - k, kind, order, kinds);
        proof {
            lemma_distinct_bounded(as_nats(order@), old(self)@.values.len());
        }
        let base = match fits_add(off, k) {
            Some(b) => b,
            None => return None,
        };
        match fits_add(base, pos) {
            Some(e) => {
                proof {
                    assert forall|o: Seq<nat>| extends(o, as_nats(order@)) implies #[trigger] canon_var(
                        old(self)@.values, old(self)@.roots, (d - k) as nat, e as nat, k as nat, off as nat, o) by {
                        assert(as_nats(order@)[pos as int] == order@[pos as int].index);
                    }
                }
                Some(e)
            },
            None => None,
        }
    }

    fn canon_param_exec(&mut self, p: &Parameter, k: usize, off: usize, fuel: usize, order: &mut Vec<InferenceVariable>, kinds: &mut Vec<ParameterKind<(), ()>>) -> (r: Option<Parameter>)
        requires
            old(self).wf(),
            distinct(as_nats(old(order)@)),
            bounded(as_nats(old(order)@), old(self)@.values.len()),
            old(kinds)@.len() == old(order)@.len(),
        ensures
            final(self)@ == old(self)@,
            final(self).open_snapshots() == old(self).open_snapshots(),
            final(self).wf(),
            extends(as_nats(final(order)@), as_nats(old(order)@)),
            distinct(as_nats(final(order)@)),
            bounded(as_nats(final(order)@), old(self)@.values.len()),
            final(kinds)@.len() == final(order)@.len(),
            walkable_param(old(self)@.values, *p, k as nat, off as nat, fuel as nat, old(self)@.values.len()) ==> r is Some,
            r is Some ==> as_nats(final(order)@) == collect_param(old(self)@.values, old(self)@.roots, *p, k as nat, fuel as nat, as_nats(old(order)@)),
            r matches Some(q) ==> forall|o: Seq<nat>| extends(o, as_nats(final(order)@)) ==> #[trigger] canon_param(
                old(self)@.values, old(self)@.roots, *p, q, k as nat, off as nat, fuel as nat, o),
        decreases fuel, p, 2nat,
    {
        match p {
            ParameterKind::Ty(t) => match self.canon_ty_exec(t, k, off, fuel, order, kinds) {
                Some(u) => {
                    let q = ParameterKind::Ty(u);
                    assert forall|o: Seq<nat>| extends(o, as_nats(order@)) implies #[trigger] canon_param(
                        old(self)@.values, old(self)@.roots, *p, q, k as nat, off as nat, fuel as nat, o) by {
                        assert(canon_ty(old(self)@.values, old(self)@.roots, *t, u, k as nat, off as nat, fuel as nat, o));
                    }
                    Some(q)
                },
                None => None,
            },
            ParameterKind::Lifetime(Lifetime::ForAll(u)) => {
                let q = ParameterKind::Lifetime(Lifetime::ForAll(*u));
                assert forall|o: Seq<nat>| extends(o, as_nats(order@)) implies #[trigger] canon_param(
                    old(self)@.values, old(self)@.roots, *p, q, k as nat, off as nat, fuel as nat, o) by {}
                Some(q)
            },
            ParameterKind::Lifetime(Lifetime::Var(d)) => {
                let n = self.num_vars();
                if *d < k || *d - k >= n {
                    let q = ParameterKind::Lifetime(Lifetime::Var(*d));
                    assert forall|o: Seq<nat>| extends(o, as_nats(order@)) implies #[trigger] canon_param(
                        old(self)@.values, old(self)@.roots, *p, q, k as nat, off as nat, fuel as nat, o) by {}
                    return Some(q);
                }
                match self.probe(InferenceVariable::from_depth(*d - k)) {
                    InferenceValue::Unbound(_) => {
                        match self.canon_var_exec(*d, k, off, order, kinds, ParameterKind::Lifetime(())) {
                            Some(e) => {
                                let q = ParameterKind::Lifetime(Lifetime::Var(e));
                                assert forall|o: Seq<nat>| extends(o, as_nats(order@)) implies #[trigger] canon_param(
                                    old(self)@.values, old(self)@.roots, *p, q, k as nat, off as nat, fuel as nat, o) by {
                                    assert(canon_var(old(self)@.values, old(self)@.roots, (*d - k) as nat, e as nat, k as nat, off as nat, o));
                                }
                                Some(q)
                            },
                            None => None,
                        }
                    },
                    InferenceValue::Bound(ParameterKind::Lifetime(l)) => {
                        if fuel == 0 {
                            return None;
                        }
                        let off2 = match fits_add(off, k) {
                            Some(x) => x,
                            None => return None,
                        };
                        let lp = ParameterKind::Lifetime(l);
                        match self.canon_param_exec(&lp, 0, off2, fuel - 1, order, kinds) {
                            Some(q) => {
                                assert forall|o: Seq<nat>| extends(o, as_nats(order@)) implies #[trigger] canon_param(
                                    old(self)@.values, old(self)@.roots, *p, q, k as nat, off as nat, fuel as nat, o) by {
                                    assert(canon_param(old(self)@.values, old(self)@.roots, lp, q, 0, off2 as nat, (fuel - 1) as nat, o));
                                }
                                Some(q)
                            },
                            None => None,
                        }
                    },
                    InferenceValue::Bound(ParameterKind::Ty(_)) => None,
                }
            },
        }
    }

    fn canon_params_exec(&mut self, ps: &Vec<Parameter>, k: usize, off: usize, fuel: usize, order: &mut Vec<InferenceVariable>, kinds: &mut Vec<ParameterKind<(), ()>>) -> (r: Option<Vec<Parameter>>)
        requires
            old(self).wf(),
            distinct(as_nats(old(order)@)),
            bounded(as_nats(old(order)@), old(self)@.values.len()),
            old(kinds)@.len() == old(order)@.len(),
        ensures
            final(self)@ == old(self)@,
            final(self).open_snapshots() == old(self).open_snapshots(),
            final(self).wf(),
            extends(as_nats(final(order)@), as_nats(old(order)@)),
            distinct(as_nats(final(order)@)),
            bounded(as_nats(final(order)@), old(self)@.values.len()),
            final(kinds)@.len() == final(order)@.len(),
            walkable_params(old(self)@.values, ps@, k as nat, off as nat, fuel as nat, old(self)@.values.len()) ==> r is Some,
            r is Some ==> as_nats(final(order)@) == collect_params(old(self)@.values, old(self)@.roots, ps@, k as nat, fuel as nat, as_nats(old(order)@)),
            r matches Some(qs) ==> forall|o: Seq<nat>| extends(o, as_nats(final(order)@)) ==> #[trigger] canon_params(
                old(self)@.values, old(self)@.roots, ps@, qs@, k as nat, off as nat, fuel as nat, o),
        decreases fuel, ps, 0nat,
    {
        let ghost vals = self@.values;
        let ghost roots = self@.roots;
        let mut out: Vec<Parameter> = Vec::new();
        let mut i: usize = 0;
        while i < ps.len()
            invariant
                i <= ps@.len(),
                out@.len() == i,
                self@ == old(self)@,
                self.open_snapshots() == old(self).open_snapshots(),
                self.wf(),
                vals == old(self)@.values,
                roots == old(self)@.roots,
                extends(as_nats(order@), as_nats(old(order)@)),
                distinct(as_nats(order@)),
                bounded(as_nats(order@), vals.len()),
                as_nats(order@) == collect_params(vals, roots, ps@.subrange(0, i as int), k as nat, fuel as nat, as_nats(old(order)@)),
                kinds@.len() == order@.len(),
                forall|o: Seq<nat>| extends(o, as_nats(order@)) ==> #[trigger] canon_params(
                    vals, roots, ps@.subrange(0, i as int), out@, k as nat, off as nat, fuel as nat, o),
            decreases ps@.len() - i,
        {
            proof {
                assert(decreases_to!(ps => ps[i as int]));
            }
            let ghost before = as_nats(order@);
            let q = match self.canon_param_exec(&ps[i], k, off, fuel, order, kinds) {
                Some(q) => q,
                None => {
                    proof {
                        lemma_walkable_params(vals, ps@, k as nat, off as nat, fuel as nat, vals.len());
                    }
                    return None;
                },
            };
            let ghost prev = out@;
            out.push(q);
            proof {
                let pre = ps@.subrange(0, i + 1);
                assert(pre.drop_last() =~= ps@.subrange(0, i as int));
                assert(out@.drop_last() =~= prev);
                assert(pre.last() == ps@[i as int]);
                assert forall|o: Seq<nat>| extends(o, as_nats(order@)) implies #[trigger] canon_params(
                    vals, roots, pre, out@, k as nat, off as nat, fuel as nat, o) by {
                    assert(extends(o, before));
                    assert(canon_params(vals, roots, ps@.subrange(0, i as int), prev, k as nat, off as nat, fuel as nat, o));
                    assert(canon_param(vals, roots, ps@[i as int], q, k as nat, off as nat, fuel as nat, o));
                }
            }
            i = i + 1;
        }
        proof {
            assert(ps@.subrange(0, ps@.len() as int) =~= ps@);
        }
        Some(out)
    }

    fn canon_ty_exec(&mut self, t: &Ty, k: usize, off: usize, fuel: usize, order: &mut Vec<InferenceVariable>, kinds: &mut Vec<ParameterKind<(), ()>>) -> (r: Option<Ty>)
        requires
            old(self).wf(),
            distinct(as_nats(old(order)@)),
            bounded(as_nats(old(order)@), old(self)@.values.len()),
            old(kinds)@.len() == old(order)@.len(),
        ensures
            final(self)@ == old(self)@,
            final(self).open_snapshots() == old(self).open_snapshots(),
            final(self).wf(),
            extends(as_nats(final(order)@), as_nats(old(order)@)),
            distinct(as_nats(final(order)@)),
            bounded(as_nats(final(order)@), old(self)@.values.len()),
            final(kinds)@.len() == final(order)@.len(),
            walkable(old(self)@.values, *t, k as nat, off as nat, fuel as nat, old(self)@.values.len()) ==> r is Some,
            r is Some ==> as_nats(final(order)@) == collect_ty(old(self)@.values, old(self)@.roots, *t, k as nat, fuel as nat, as_nats(old(order)@)),
            r matches Some(u) ==> forall|o: Seq<nat>| extends(o, as_nats(final(order)@)) ==> #[trigger] canon_ty(
                old(self)@.values, old(self)@.roots, *t, u, k as nat, off as nat, fuel as nat, o),
        decreases fuel, t, 1nat,
    {
        match t {
            Ty::Var(d) => {
                let n = self.num_vars();
                if *d < k || *d - k >= n {
                    let u = Ty::Var(*d);
                    assert forall|o: Seq<nat>| extends(o, as_nats(order@)) implies #[trigger] canon_ty(
                        old(self)@.values, old(self)@.roots, *t, u, k as nat, off as nat, fuel as nat, o) by {}
                    return Some(u);
                }
                match self.probe(InferenceVariable::from_depth(*d - k)) {
                    InferenceValue::Unbound(_) => {
                        match self.canon_var_exec(*d, k, off, order, kinds, ParameterKind::Ty(())) {
                            Some(e) => {
                                let u = Ty::Var(e);
                                assert forall|o: Seq<nat>| extends(o, as_nats(order@)) implies #[trigger] canon_ty(
                                    old(self)@.values, old(self)@.roots, *t, u, k as nat, off as nat, fuel as nat, o) by {
                                    assert(canon_var(old(self)@.values, old(self)@.roots, (*d - k) as nat, e as nat, k as nat, off as nat, o));
                                }
                                Some(u)
                            },
                            None => None,
                        }
                    },
                    InferenceValue::Bound(ParameterKind::Ty(w)) => {
                        if fuel == 0 {
                            return None;
                        }
                        let off2 = match fits_add(off, k) {
                            Some(x) => x,
                            None => return None,
                        };
                        match self.canon_ty_exec(&w, 0, off2, fuel - 1, order, kinds) {
                            Some(u) => {
                                assert forall|o: Seq<nat>| extends(o, as_nats(order@)) implies #[trigger] canon_ty(
                                    old(self)@.values, old(self)@.roots, *t, u, k as nat, off as nat, fuel as nat, o) by {
                                    assert(canon_ty(old(self)@.values, old(self)@.roots, w, u, 0, off2 as nat, (fuel - 1) as nat, o));
                                }
                                Some(u)
                            },
                            None => None,
                        }
                    },
                    InferenceValue::Bound(ParameterKind::Lifetime(_)) => None,
                }
            },
            Ty::Apply(a) => match self.canon_params_exec(&a.parameters, k, off, fuel, order, kinds) {
                Some(ps) => {
                    let u = Ty::Apply(ApplicationTy { name: a.name, parameters: ps });
                    assert forall|o: Seq<nat>| extends(o, as_nats(order@)) implies #[trigger] canon_ty(
                        old(self)@.values, old(self)@.roots, *t, u, k as nat, off as nat, fuel as nat, o) by {
                        assert(canon_params(old(self)@.values, old(self)@.roots, a.parameters@, ps@, k as nat, off as nat, fuel as nat, o));
                    }
                    Some(u)
                },
                None => None,
            },
            Ty::Projection(p) => match self.canon_params_exec(&p.parameters, k, off, fuel, order, kinds) {
                Some(ps) => {
                    let u = Ty::Projection(ProjectionTy { associated_ty_id: p.associated_ty_id, parameters: ps });
                    assert forall|o: Seq<nat>| extends(o, as_nats(order@)) implies #[trigger] canon_ty(
                        old(self)@.values, old(self)@.roots, *t, u, k as nat, off as nat, fuel as nat, o) by {
                        assert(canon_params(old(self)@.values, old(self)@.roots, p.parameters@, ps@, k as nat, off as nat, fuel as nat, o));
                    }
                    Some(u)
                },
                None => None,
            },
            Ty::ForAll(q) => {
                let k2 = match fits_add(k, q.num_binders) {
                    Some(x) => x,
                    None => return None,
                };
                match self.canon_ty_exec(&q.ty, k2, off, fuel, order, kinds) {
                    Some(v) => {
                        let u = Ty::ForAll(Box::new(QuantifiedTy { num_binders: q.num_binders, ty: v }));
                        assert forall|o: Seq<nat>| extends(o, as_nats(order@)) implies #[trigger] canon_ty(
                            old(self)@.values, old(self)@.roots, *t, u, k as nat, off as nat, fuel as nat, o) by {
                            assert(canon_ty(old(self)@.values, old(self)@.roots, q.ty, v, k2 as nat, off as nat, fuel as nat, o));
                        }
                        Some(u)
                    },
                    None => None,
                }
            },
        }
    }
}

impl InferenceTable {
    /// Replaces each free unbound variable of `value` (bound ones are first
    /// replaced by their values) with a binder, one binder per class, and
    /// lists the classes in the order of the binders. `None` when a chain of
    /// bindings is longer than the number of variables, a depth leaves
    /// `usize`, or a type variable is bound to a lifetime.
    pub fn canonicalize(&mut self, value: &Ty) -> (r: Option<Canonicalized>)
        requires
            old(self).wf(),
        ensures
            final(self)@ == old(self)@,
            final(self).open_snapshots() == old(self).open_snapshots(),
            final(self).wf(),
            walkable(old(self)@.values, *value, 0, 0, old(self)@.values.len(), old(self)@.values.len()) ==> r is Some,
            r matches Some(c) ==> {
                let order = c.free_vars@.map_values(|p: ParameterKind<InferenceVariable, InferenceVariable>| var_index(p));
                &&& c.quantified.binders@.len() == c.free_vars@.len()
                &&& order == collect_ty(old(self)@.values, old(self)@.roots, *value, 0, old(self)@.values.len(), Seq::empty())
                &&& distinct(order)
                &&& bounded(order, old(self)@.values.len())
                &&& canon_ty(old(self)@.values, old(self)@.roots, *value, c.quantified.value, 0, 0, old(self)@.values.len(), order)
                &&& forall|i: int| 0 <= i < order.len() ==> #[trigger] same_kind(c.quantified.binders@[i], c.free_vars@[i])
            },
    {
        let n = self.num_vars();
        let mut order: Vec<InferenceVariable> = Vec::new();
        let mut kinds: Vec<ParameterKind<(), ()>> = Vec::new();
        proof {
            assert(distinct(as_nats(order@)));
            assert(bounded(as_nats(order@), self@.values.len()));
            assert(as_nats(order@) =~= Seq::<nat>::empty());
        }
        let body = match self.canon_ty_exec(value, 0, 0, n, &mut order, &mut kinds) {
            Some(b) => b,
            None => return None,
        };
        let mut free_vars: Vec<ParameterKind<InferenceVariable, InferenceVariable>> = Vec::new();
        let mut i: usize = 0;
        while i < order.len()
            invariant
                i <= order@.len(),
                kinds@.len() == order@.len(),
                free_vars@.len() == i,
                forall|j: int| 0 <= j < i ==> var_index(#[trigger] free_vars@[j]) == order@[j].index,
                forall|j: int| 0 <= j < i ==> #[trigger] same_kind(kinds@[j], free_vars@[j]),
            decreases order@.len() - i,
        {
            match kinds[i] {
                ParameterKind::Ty(()) => free_vars.push(ParameterKind::Ty(order[i])),
                ParameterKind::Lifetime(()) => free_vars.push(ParameterKind::Lifetime(order[i])),
            }
            i = i + 1;
        }
        proof {
            let o = free_vars@.map_values(|p: ParameterKind<InferenceVariable, InferenceVariable>| var_index(p));
            assert(o =~= as_nats(order@));
        }
        Some(Canonicalized { quantified: Canonical { value: body, binders: kinds }, free_vars })
    }

    /// Brings a canonical value back to life: one fresh variable, stationed in
    /// `ui`, for each binder, put in place of that binder. The binder at
    /// position `i` becomes the variable numbered `n + i`, where `n` is the
    /// number of variables before the call; `None` (with the variables made)
    /// when a depth would leave `usize`.
    pub fn instantiate(&mut self, ui: UniverseIndex, c: &Canonical<Ty>) -> (r: Option<Ty>)
        requires
            old(self).wf(),
            old(self)@.vars.len() + c.binders@.len() <= u32::MAX,
        ensures
            final(self).wf(),
            final(self).open_snapshots() == old(self).open_snapshots(),
            final(self)@.max_universe == old(self)@.max_universe,
            final(self)@.values == old(self)@.values + Seq::new(c.binders@.len(), |i: int| InferenceValue::Unbound(ui)),
            final(self)@.roots == old(self)@.roots + Seq::new(c.binders@.len(), |i: int| (old(self)@.vars.len() + i) as nat),
            r is Some <==> shift_fits_ty(c.value, old(self)@.vars.len(), 0),
            r matches Some(u) ==> shifted_ty(c.value, u, old(self)@.vars.len(), 0),
    {
        let base = self.num_vars();
        let mut i: usize = 0;
        while i < c.binders.len()
            invariant
                i <= c.binders@.len(),
                self.wf(),
                self.open_snapshots() == old(self).open_snapshots(),
                self@.max_universe == old(self)@.max_universe,
                base == old(self)@.vars.len(),
                base + c.binders@.len() <= u32::MAX,
                self@.values == old(self)@.values + Seq::new(i as nat, |j: int| InferenceValue::Unbound(ui)),
                self@.roots == old(self)@.roots + Seq::new(i as nat, |j: int| (base + j) as nat),
                self@.vars.len() == base + i,
            decreases c.binders@.len() - i,
        {
            let _v = self.new_variable(ui);
            proof {
                assert(self@.values =~= old(self)@.values + Seq::new((i + 1) as nat, |j: int| InferenceValue::Unbound(ui)));
                assert(self@.roots =~= old(self)@.roots + Seq::new((i + 1) as nat, |j: int| (base + j) as nat));
            }
            i = i + 1;
        }
        proof {
            assert(self@.values =~= old(self)@.values + Seq::new(c.binders@.len(), |j: int| InferenceValue::Unbound(ui)));
            assert(self@.roots =~= old(self)@.roots + Seq::new(c.binders@.len(), |j: int| (base + j) as nat));
        }
        shift_ty(&c.value, base, 0)
    }
}

/// `u` is `t` (under `k` binders) with each binder `i < n` of the canonical
/// value `t` moved to the position that lists variable `base + i` in
/// `order`, and each depth past the binders moved up by `base`.
pub open spec fn renamed_ty(t: Ty, u: Ty, k: nat, base: nat, n: nat, order: Seq<nat>) -> bool
    decreases t,
{
    match t {
        Ty::Var(d) => if d < k {
            u == t
        } else if d - k < n {
            u is Var && u->Var_0 >= k && u->Var_0 - k < order.len() && order[u->Var_0 - k] == base + (d - k)
        } else {
            u is Var && u->Var_0 == d + base
        },
        Ty::Apply(a) => u is Apply && u->Apply_0.name == a.name
            && renamed_params(a.parameters@, u->Apply_0.parameters@, k, base, n, order),
        Ty::Projection(p) => u is Projection && u->Projection_0.associated_ty_id == p.associated_ty_id
            && renamed_params(p.parameters@, u->Projection_0.parameters@, k, base, n, order),
        Ty::ForAll(q) => u is ForAll && u->ForAll_0.num_binders == q.num_binders
            && renamed_ty(q.ty, u->ForAll_0.ty, (k + q.num_binders) as nat, base, n, order),
    }
}

pub open spec fn renamed_param(p: Parameter, q: Parameter, k: nat, base: nat, n: nat, order: Seq<nat>) -> bool
    decreases p,
{
    match p {
        ParameterKind::Ty(t) => q is Ty && renamed_ty(t, q->Ty_0, k, base, n, order),
        ParameterKind::Lifetime(Lifetime::Var(d)) => if d < k {
            q == p
        } else if d - k < n {
            q matches ParameterKind::Lifetime(Lifetime::Var(e)) && e >= k && e - k < order.len() && order[e - k] == base + (d - k)
        } else {
            q matches ParameterKind::Lifetime(Lifetime::Var(e)) && e == d + base
        },
        ParameterKind::Lifetime(Lifetime::ForAll(_)) => q == p,
    }
}

pub open spec fn renamed_params(ps: Seq<Parameter>, qs: Seq<Parameter>, k: nat, base: nat, n: nat, order: Seq<nat>) -> bool
    decreases ps,
{
    ps.len() == qs.len() && (ps.len() == 0 || (renamed_params(ps.drop_last(), qs.drop_last(), k, base, n, order)
        && renamed_param(ps.last(), qs.last(), k, base, n, order)))
}

/// The table cells right after `instantiate` made `n` fresh variables
/// numbered from `base`: each unbound and alone in its class.
pub open spec fn fresh_block(vals: Seq<InferenceValue>, roots: Seq<nat>, base: nat, n: nat) -> bool {
    &&& vals.len() == base + n
    &&& roots.len() == vals.len()
    &&& forall|i: int| base <= i < base + n ==> #[trigger] vals[i] is Unbound && roots[i] == i
}

proof fn lemma_round_trip_params(vals: Seq<InferenceValue>, roots: Seq<nat>, base: nat, n: nat, ps: Seq<Parameter>, live: Seq<Parameter>, canon: Seq<Parameter>, k: nat, fuel: nat, order: Seq<nat>)
    requires
        fresh_block(vals, roots, base, n),
        shifted_params(ps, live, base, k),
        canon_params(vals, roots, live, canon, k, 0, fuel, order),
    ensures
        renamed_params(ps, canon, k, base, n, order),
    decreases ps,
{
    if ps.len() > 0 {
        lemma_round_trip_params(vals, roots, base, n, ps.drop_last(), live.drop_last(), canon.drop_last(), k, fuel, order);
        lemma_round_trip_param(vals, roots, base, n, ps.last(), live.last(), canon.last(), k, fuel, order);
    }
}

proof fn lemma_round_trip_param(vals: Seq<InferenceValue>, roots: Seq<nat>, base: nat, n: nat, p: Parameter, live: Parameter, canon: Parameter, k: nat, fuel: nat, order: Seq<nat>)
    requires
        fresh_block(vals, roots, base, n),
        shifted_param(p, live, base, k),
        canon_param(vals, roots, live, canon, k, 0, fuel, order),
    ensures
        renamed_param(p, canon, k, base, n, order),
    decreases p,
{
    match p {
        ParameterKind::Ty(t) => {
            lemma_canonicalize_inverts_instantiate(vals, roots, base, n, t, live->Ty_0, canon->Ty_0, k, fuel, order);
        },
        ParameterKind::Lifetime(Lifetime::Var(d)) => {
            if d >= k && d - k < n {
                let v = d + base - k;
                assert(vals[v] is Unbound && roots[v] == v);
            }
        },
        ParameterKind::Lifetime(Lifetime::ForAll(_)) => {},
    }
}

/// Canonicalizing what `instantiate` made gives back the canonical value up
/// to the order of its binders: every binder `i` (below the count `n` of
/// fresh variables numbered from `base`) stands at the position where the
/// fresh variable `base + i` is listed, every bound depth is kept, and the
/// shape is the same. Called with `k == 0` for a whole value.
pub proof fn lemma_canonicalize_inverts_instantiate(vals: Seq<InferenceValue>, roots: Seq<nat>, base: nat, n: nat, t: Ty, live: Ty, canon: Ty, k: nat, fuel: nat, order: Seq<nat>)
    requires
        fresh_block(vals, roots, base, n),
        shifted_ty(t, live, base, k),
        canon_ty(vals, roots, live, canon, k, 0, fuel, order),
    ensures
        renamed_ty(t, canon, k, base, n, order),
    decreases t,
{
    match t {
        Ty::Var(d) => {
            if d >= k && d - k < n {
                let v = d + base - k;
                assert(vals[v] is Unbound && roots[v] == v);
            }
        },
        Ty::Apply(a) => {
            lemma_round_trip_params(vals, roots, base, n, a.parameters@, live->Apply_0.parameters@, canon->Apply_0.parameters@, k, fuel, order);
        },
        Ty::Projection(p) => {
            lemma_round_trip_params(vals, roots, base, n, p.parameters@, live->Projection_0.parameters@, canon->Projection_0.parameters@, k, fuel, order);
        },
        Ty::ForAll(q) => {
            lemma_canonicalize_inverts_instantiate(vals, roots, base, n, q.ty, live->ForAll_0.ty, canon->ForAll_0.ty, (k + q.num_binders) as nat, fuel, order);
        },
    }
}

} // verus!

use vstd::prelude::*;
use crate::infer::{InferenceTable, TableView};
use crate::ir::{copy_ty, same_ty, Lifetime, Parameter, ParameterKind, Ty, TypeName, UniverseIndex};
use crate::store::{merged, store_roots, store_values};
use crate::var::{InferenceValue, InferenceVariable};

verus! {

broadcast use vstd::std_specs::vec::group_vec_axioms;

/// Unification found the two sides unequal.
#[derive(Clone, Copy, Debug, PartialEq, Eq, Structural)]
pub struct NoSolution;

/// What a scan of a term for binding it to a variable found: the variable
/// itself (`occurs`), a placeholder the variable cannot see (`hidden`), or a
/// chain of bindings longer than the budget (`exhausted`).
pub struct Scan {
    pub occurs: bool,
    pub hidden: bool,
    pub exhausted: bool,
}

pub open spec fn clean() -> Scan {
    Scan { occurs: false, hidden: false, exhausted: false }
}

pub open spec fn join(a: Scan, b: Scan) -> Scan {
    Scan { occurs: a.occurs || b.occurs, hidden: a.hidden || b.hidden, exhausted: a.exhausted || b.exhausted }
}

pub open spec fn is_clean(s: Scan) -> bool {
    !s.occurs && !s.hidden && !s.exhausted
}

/// Scan of `t`, under `c` binders, for binding it to a variable of class
/// `xr` stationed in universe `ui`; bindings of free variables are followed
/// with `fuel` steps left.
pub open spec fn scan_ty(vals: Seq<InferenceValue>, roots: Seq<nat>, xr: nat, ui: nat, t: Ty, c: nat, fuel: nat) -> Scan
    decreases fuel, t, 1nat,
{
    match t {
        Ty::Var(d) => if d < c { clean() } else {
            let v = (d - c) as nat;
            if v >= vals.len() {
                clean()
            } else if roots[v as int] == xr {
                Scan { occurs: true, ..clean() }
            } else {
                match vals[v as int] {
                    InferenceValue::Unbound(_) => clean(),
                    InferenceValue::Bound(p) => if fuel == 0 {
                        Scan { exhausted: true, ..clean() }
                    } else {
                        scan_param(vals, roots, xr, ui, p, 0, (fuel - 1) as nat)
                    },
                }
            }
        },
        Ty::Apply(a) => join(
            Scan { hidden: a.name matches TypeName::ForAll(u) && u.counter > ui, ..clean() },
            scan_params(vals, roots, xr, ui, a.parameters@, c, fuel),
        ),
        Ty::Projection(p) => scan_params(vals, roots, xr, ui, p.parameters@, c, fuel),
        Ty::ForAll(q) => if c + q.num_binders > usize::MAX {
            Scan { exhausted: true, ..clean() }
        } else {
            scan_ty(vals, roots, xr, ui, q.ty, (c + q.num_binders) as nat, fuel)
        },
    }
}

pub open spec fn scan_param(vals: Seq<InferenceValue>, roots: Seq<nat>, xr: nat, ui: nat, p: Parameter, c: nat, fuel: nat) -> Scan
    decreases fuel, p, 2nat,
{
    match p {
        ParameterKind::Ty(t) => scan_ty(vals, roots, xr, ui, t, c, fuel),
        ParameterKind::Lifetime(Lifetime::Var(d)) => if d < c { clean() } else {
            let v = (d - c) as nat;
            if v >= vals.len() {
                clean()
            } else if roots[v as int] == xr {
                Scan { occurs: true, ..clean() }
            } else {
                match vals[v as int] {
                    InferenceValue::Unbound(_) => clean(),
                    InferenceValue::Bound(p) => if fuel == 0 {
                        Scan { exhausted: true, ..clean() }
                    } else {
                        scan_param(vals, roots, xr, ui, p, 0, (fuel - 1) as nat)
                    },
                }
            }
        },
        ParameterKind::Lifetime(Lifetime::ForAll(u)) => Scan { hidden: u.counter > ui, ..clean() },
    }
}

pub open spec fn scan_params(vals: Seq<InferenceValue>, roots: Seq<nat>, xr: nat, ui: nat, ps: Seq<Parameter>, c: nat, fuel: nat) -> Scan
    decreases fuel, ps, 0nat,
{
    if ps.len() == 0 {
        clean()
    } else {
        join(scan_params(vals, roots, xr, ui, ps.drop_last(), c, fuel), scan_param(vals, roots, xr, ui, ps.last(), c, fuel))
    }
}

fn join_exec(a: Scan, b: Scan) -> (r: Scan)
    ensures
        r == join(a, b),
{
    Scan { occurs: a.occurs || b.occurs, hidden: a.hidden || b.hidden, exhausted: a.exhausted || b.exhausted }
}

fn clean_exec() -> (r: Scan)
    ensures
        r == clean(),
{
    Scan { occurs: false, hidden: false, exhausted: false }
}

impl InferenceTable {
    /// One step of a scan at the variable of depth `d` under `c` binders:
    /// the scan's result, or the value the variable is bound to.
    fn var_step(&mut self, xr: usize, d: usize, c: usize) -> (r: Result<Scan, Parameter>)
        requires
            old(self).wf(),
        ensures
            final(self)@ == old(self)@,
            final(self).open_snapshots() == old(self).open_snapshots(),
            final(self).wf(),
            ({
                let vals = old(self)@.values;
                let roots = old(self)@.roots;
                let v = d - c;
                if d < c || v >= vals.len() {
                    r == Ok::<Scan, Parameter>(clean())
                } else if roots[v] == xr {
                    r == Ok::<Scan, Parameter>(Scan { occurs: true, ..clean() })
                } else {
                    match vals[v] {
                        InferenceValue::Unbound(_) => r == Ok::<Scan, Parameter>(clean()),
                        InferenceValue::Bound(p) => r == Err::<Scan, Parameter>(p),
                    }
                }
            }),
    {
        if d < c {
            return Ok(clean_exec());
        }
        let v = d - c;
        if v >= self.num_vars() {
            return Ok(clean_exec());
        }
        let var = InferenceVariable::from_depth(v);
        let root = self.root_of(var);
        if root.index as usize == xr {
            return Ok(Scan { occurs: true, hidden: false, exhausted: false });
        }
        match self.probe(var) {
            InferenceValue::Unbound(_) => Ok(clean_exec()),
            InferenceValue::Bound(p) => Err(p),
        }
    }

    fn scan_param_exec(&mut self, xr: usize, ui: UniverseIndex, p: &Parameter, c: usize, fuel: usize) -> (r: Scan)
        requires
            old(self).wf(),
        ensures
            final(self)@ == old(self)@,
            final(self).open_snapshots() == old(self).open_snapshots(),
            final(self).wf(),
            r == scan_param(old(self)@.values, old(self)@.roots, xr as nat, ui.counter as nat, *p, c as nat, fuel as nat),
        decreases fuel, p, 2nat,
    {
        match p {
            ParameterKind::Ty(t) => self.scan_ty_exec(xr, ui, t, c, fuel),
            ParameterKind::Lifetime(Lifetime::Var(d)) => match self.var_step(xr, *d, c) {
                Ok(found) => found,
                Err(p) => if fuel == 0 {
                    Scan { occurs: false, hidden: false, exhausted: true }
                } else {
                    self.scan_param_exec(xr, ui, &p, 0, fuel - 1)
                },
            },
            ParameterKind::Lifetime(Lifetime::ForAll(u)) => Scan {
                occurs: false,
                hidden: u.counter > ui.counter,
                exhausted: false,
            },
        }
    }

    fn scan_params_exec(&mut self, xr: usize, ui: UniverseIndex, ps: &Vec<Parameter>, c: usize, fuel: usize) -> (r: Scan)
        requires
            old(self).wf(),
        ensures
            final(self)@ == old(self)@,
            final(self).open_snapshots() == old(self).open_snapshots(),
            final(self).wf(),
            r == scan_params(old(self)@.values, old(self)@.roots, xr as nat, ui.counter as nat, ps@, c as nat, fuel as nat),
        decreases fuel, ps, 0nat,
    {
        let ghost vals = self@.values;
        let ghost roots = self@.roots;
        let mut acc = clean_exec();
        let mut i: usize = 0;
        while i < ps.len()
            invariant
                i <= ps@.len(),
                self@ == old(self)@,
                self.open_snapshots() == old(self).open_snapshots(),
                self.wf(),
                vals == old(self)@.values,
                roots == old(self)@.roots,
                acc == scan_params(vals, roots, xr as nat, ui.counter as nat, ps@.subrange(0, i as int), c as nat, fuel as nat),
            decreases ps@.len() - i,
        {
            proof {
                assert(decreases_to!(ps => ps[i as int]));
            }
            let one = self.scan_param_exec(xr, ui, &ps[i], c, fuel);
            acc = join_exec(acc, one);
            proof {
                let pre = ps@.subrange(0, i + 1);
                assert(pre.drop_last() =~= ps@.subrange(0, i as int));
                assert(pre.last() == ps@[i as int]);
            }
            i = i + 1;
        }
        proof {
            assert(ps@.subrange(0, ps@.len() as int) =~= ps@);
        }
        acc
    }

    fn scan_ty_exec(&mut self, xr: usize, ui: UniverseIndex, t: &Ty, c: usize, fuel: usize) -> (r: Scan)
        requires
            old(self).wf(),
        ensures
            final(self)@ == old(self)@,
            final(self).open_snapshots() == old(self).open_snapshots(),
            final(self).wf(),
            r == scan_ty(old(self)@.values, old(self)@.roots, xr as nat, ui.counter as nat, *t, c as nat, fuel as nat),
        decreases fuel, t, 1nat,
    {
        match t {
            Ty::Var(d) => match self.var_step(xr, *d, c) {
                Ok(found) => found,
                Err(p) => if fuel == 0 {
                    Scan { occurs: false, hidden: false, exhausted: true }
                } else {
                    self.scan_param_exec(xr, ui, &p, 0, fuel - 1)
                },
            },
            Ty::Apply(a) => {
                let hidden = match a.name {
                    TypeName::ForAll(u) => u.counter > ui.counter,
                    _ => false,
                };
                let rest = self.scan_params_exec(xr, ui, &a.parameters, c, fuel);
                join_exec(Scan { occurs: false, hidden, exhausted: false }, rest)
            },
            Ty::Projection(p) => self.scan_params_exec(xr, ui, &p.parameters, c, fuel),
            Ty::ForAll(q) => {
                if q.num_binders > usize::MAX - c {
                    Scan { occurs: false, hidden: false, exhausted: true }
                } else {
                    self.scan_ty_exec(xr, ui, &q.ty, c + q.num_binders, fuel)
                }
            },
        }
    }
}

/// Residual facts of a successful unification: pairs of lifetimes that must
/// be equal, left to a later solver.
#[derive(Debug)]
pub struct UnificationResult {
    pub constraints: Vec<(Lifetime, Lifetime)>,
}

/// The scan that decides whether the unbound variable numbered `x` may be
/// bound to `t` in a table with these cells; chains of bindings are followed
/// as far as there are variables.
pub open spec fn binding_scan(vals: Seq<InferenceValue>, roots: Seq<nat>, x: int, t: Ty) -> Scan {
    scan_ty(vals, roots, roots[x], vals[x]->Unbound_0.counter as nat, t, 0, vals.len())
}

impl InferenceTable {
    /// Unifies the unbound variable `var` with `ty`, which stands under no
    /// binder. Another unbound variable joins `var`'s class; anything else is
    /// bound to `var` unless it contains `var` (following bindings) or a
    /// placeholder that `var`'s universe cannot see.
    pub fn unify_var_ty(&mut self, var: InferenceVariable, ty: &Ty) -> (r: Result<(), NoSolution>)
        requires
            old(self).wf(),
            var.index < old(self)@.values.len(),
            old(self)@.values[var.index as int] is Unbound,
        ensures
            final(self).wf(),
            final(self).open_snapshots() == old(self).open_snapshots(),
            final(self)@.vars == old(self)@.vars,
            final(self)@.max_universe == old(self)@.max_universe,
            ({
                let vals = old(self)@.values;
                let roots = old(self)@.roots;
                let x = var.index as int;
                let s = binding_scan(vals, roots, x, *ty);
                match *ty {
                    Ty::Var(y) if y < vals.len() && roots[y as int] == roots[x] => r is Ok && final(self)@ == old(self)@,
                    Ty::Var(y) if y < vals.len() && vals[y as int] is Unbound => {
                        let ux = vals[x]->Unbound_0;
                        let uy = vals[y as int]->Unbound_0;
                        let v = InferenceValue::Unbound(if ux.counter <= uy.counter { ux } else { uy });
                        &&& r is Ok
                        &&& {
                            ||| (final(self)@.values, final(self)@.roots) == merged(vals, roots, roots[x], roots[y as int], roots[x], v)
                            ||| (final(self)@.values, final(self)@.roots) == merged(vals, roots, roots[x], roots[y as int], roots[y as int], v)
                        }
                    },
                    _ => {
                        &&& r is Ok <==> is_clean(s)
                        &&& r is Err ==> final(self)@ == old(self)@
                        &&& r is Ok ==> exists|u: Ty| #[trigger] same_ty(*ty, u)
                            && (final(self)@.values, final(self)@.roots) == merged(
                            vals,
                            roots,
                            roots[x],
                            roots[x],
                            roots[x],
                            InferenceValue::Bound(ParameterKind::Ty(u)),
                        )
                    },
                }
            }),
    {
        let n = self.num_vars();
        let root = self.root_of(var);
        if let Ty::Var(y) = ty {
            if *y < n {
                let other = InferenceVariable::from_depth(*y);
                let other_root = self.root_of(other);
                if other_root.index == root.index {
                    return Ok(());
                }
                if let InferenceValue::Unbound(_) = self.probe(other) {
                    self.union_unbound(var, other);
                    return Ok(());
                }
            }
        }
        let ui = self.universe_of_unbound_var(var);
        let s = self.scan_ty_exec(root.index as usize, ui, ty, 0, n);
        if s.occurs || s.hidden || s.exhausted {
            return Err(NoSolution);
        }
        let u = copy_ty(ty);
        assert(same_ty(*ty, u));
        self.bind_var(var, ParameterKind::Ty(u));
        Ok(())
    }
}

/// `after` is `before` with the class of variable `x` bound to a copy of `t`.
pub open spec fn bound_to_copy(before: TableView, after: TableView, x: int, t: Ty) -> bool {
    exists|u: Ty| #[trigger] same_ty(t, u) && (after.values, after.roots) == merged(
        before.values,
        before.roots,
        before.roots[x],
        before.roots[x],
        before.roots[x],
        InferenceValue::Bound(ParameterKind::Ty(u)),
    )
}

/// `after` is `before` with the classes of unbound variables `x` and `y`
/// joined under the representative of either, in the smaller universe.
pub open spec fn joined(before: TableView, after: TableView, x: int, y: int) -> bool {
    let vals = before.values;
    let roots = before.roots;
    let ux = vals[x]->Unbound_0;
    let uy = vals[y]->Unbound_0;
    let v = InferenceValue::Unbound(if ux.counter <= uy.counter { ux } else { uy });
    if roots[x] == roots[y] {
        after.values == vals && after.roots == roots
    } else {
        ||| (after.values, after.roots) == merged(vals, roots, roots[x], roots[y], roots[x], v)
        ||| (after.values, after.roots) == merged(vals, roots, roots[x], roots[y], roots[y], v)
    }
}

/// What unifying `a` with `b` does, on the cases decided at the top of the
/// terms: a variable meets a variable or a term (on either side), or two
/// rigid terms whose heads or arities differ.
pub open spec fn unify_outcome(before: TableView, after: TableView, a: Ty, b: Ty, ok: bool) -> bool {
    let vals = before.values;
    let roots = before.roots;
    let free = |x: usize| x < vals.len() && vals[x as int] is Unbound;
    match (a, b) {
        (Ty::Var(x), Ty::Var(y)) => free(x) && free(y) ==> ok && joined(before, after, x as int, y as int),
        (Ty::Var(x), _) => free(x) ==> {
            let s = binding_scan(vals, roots, x as int, b);
            &&& ok <==> is_clean(s)
            &&& s.occurs ==> !ok
            &&& s.hidden ==> !ok
            &&& ok ==> bound_to_copy(before, after, x as int, b)
        },
        (_, Ty::Var(y)) => free(y) ==> {
            let s = binding_scan(vals, roots, y as int, a);
            &&& ok <==> is_clean(s)
            &&& s.occurs ==> !ok
            &&& s.hidden ==> !ok
            &&& ok ==> bound_to_copy(before, after, y as int, a)
        },
        (Ty::Apply(p), Ty::Apply(q)) => p.name != q.name || p.parameters@.len() != q.parameters@.len() ==> !ok,
        (Ty::Projection(p), Ty::Projection(q)) => p.associated_ty_id != q.associated_ty_id
            || p.parameters@.len() != q.parameters@.len() ==> !ok,
        _ => true,
    }
}

/// Every variable unbound in `before` is still unbound in `after`.
pub open spec fn keeps_unbound(before: Seq<InferenceValue>, after: Seq<InferenceValue>) -> bool {
    &&& after.len() == before.len()
    &&& forall|i: int| 0 <= i < before.len() && before[i] is Unbound ==> #[trigger] after[i] is Unbound
}

/// `p` is a type variable unbound in `vals`.
pub open spec fn free_ty_var(vals: Seq<InferenceValue>, p: Parameter) -> bool {
    p matches ParameterKind::Ty(Ty::Var(x)) && x < vals.len() && vals[x as int] is Unbound
}

/// Both lists have the same length and pair unbound type variables only.
pub open spec fn free_var_pairs(vals: Seq<InferenceValue>, ps: Seq<Parameter>, qs: Seq<Parameter>) -> bool {
    &&& ps.len() == qs.len()
    &&& forall|i: int| 0 <= i < ps.len() ==> free_ty_var(vals, #[trigger] ps[i]) && free_ty_var(vals, qs[i])
}

/// The table facts that every unification step keeps.
pub open spec fn keeps_shape(before: &InferenceTable, after: &InferenceTable) -> bool {
    &&& after.wf()
    &&& after.open_snapshots() == before.open_snapshots()
    &&& after@.vars == before@.vars
    &&& after@.max_universe == before@.max_universe
}

impl InferenceTable {
    /// The lifetime that `l` stands for after one step through the table.
    fn resolve_lifetime(&mut self, l: Lifetime) -> (r: Lifetime)
        requires
            old(self).wf(),
        ensures
            final(self)@ == old(self)@,
            final(self).open_snapshots() == old(self).open_snapshots(),
            final(self).wf(),
    {
        if let Lifetime::Var(x) = l {
            if x < self.num_vars() {
                if let InferenceValue::Bound(ParameterKind::Lifetime(v)) = self.probe(InferenceVariable::from_depth(x)) {
                    return v;
                }
            }
        }
        l
    }

    /// The unbound variable that a lifetime is, if it is one of this table.
    fn unbound_lifetime_var(&mut self, l: Lifetime) -> (r: Option<InferenceVariable>)
        requires
            old(self).wf(),
        ensures
            final(self)@ == old(self)@,
            final(self).open_snapshots() == old(self).open_snapshots(),
            final(self).wf(),
            r matches Some(v) ==> v.index < old(self)@.values.len() && old(self)@.values[v.index as int] is Unbound,
    {
        if let Lifetime::Var(x) = l {
            if x < self.num_vars() {
                let v = InferenceVariable::from_depth(x);
                if let InferenceValue::Unbound(_) = self.probe(v) {
                    return Some(v);
                }
            }
        }
        None
    }

    /// Binds the unbound lifetime variable `v` to `l` when `v` can see it;
    /// records the pair as a constraint otherwise.
    fn bind_lifetime(&mut self, v: InferenceVariable, l: Lifetime, out: &mut Vec<(Lifetime, Lifetime)>)
        requires
            old(self).wf(),
            v.index < old(self)@.values.len(),
            old(self)@.values[v.index as int] is Unbound,
        ensures
            keeps_shape(old(self), final(self)),
    {
        let ui = self.universe_of_unbound_var(v);
        match l {
            Lifetime::ForAll(u) => {
                if u.counter <= ui.counter {
                    self.bind_var(v, ParameterKind::Lifetime(l));
                } else {
                    out.push((v.to_lifetime(), l));
                }
            },
            Lifetime::Var(_) => {
                out.push((v.to_lifetime(), l));
            },
        }
    }

    /// Equates two lifetimes: variables are joined or bound where they can
    /// be, any other unequal pair becomes a constraint.
    fn unify_lifetime(&mut self, a: Lifetime, b: Lifetime, out: &mut Vec<(Lifetime, Lifetime)>)
        requires
            old(self).wf(),
        ensures
            keeps_shape(old(self), final(self)),
    {
        let a = self.resolve_lifetime(a);
        let b = self.resolve_lifetime(b);
        if a == b {
            return;
        }
        let va = self.unbound_lifetime_var(a);
        let vb = self.unbound_lifetime_var(b);
        match (va, vb) {
            (Some(x), Some(y)) => self.union_unbound(x, y),
            (Some(x), None) => self.bind_lifetime(x, b, out),
            (None, Some(y)) => self.bind_lifetime(y, a, out),
            (None, None) => out.push((a, b)),
        }
    }

    fn unify_param_rec(&mut self, p: &Parameter, q: &Parameter, fuel: usize, out: &mut Vec<(Lifetime, Lifetime)>) -> (r: Result<(), NoSolution>)
        requires
            old(self).wf(),
        ensures
            keeps_shape(old(self), final(self)),
            free_ty_var(old(self)@.values, *p) && free_ty_var(old(self)@.values, *q)
                ==> r is Ok && final(out)@ == old(out)@ && keeps_unbound(old(self)@.values, final(self)@.values),
        decreases fuel, p, 2nat,
    {
        match (p, q) {
            (ParameterKind::Ty(a), ParameterKind::Ty(b)) => self.unify_ty_rec(a, b, fuel, out),
            (ParameterKind::Lifetime(a), ParameterKind::Lifetime(b)) => {
                self.unify_lifetime(*a, *b, out);
                Ok(())
            },
            _ => Err(NoSolution),
        }
    }

    fn unify_params_rec(&mut self, ps: &Vec<Parameter>, qs: &Vec<Parameter>, fuel: usize, out: &mut Vec<(Lifetime, Lifetime)>) -> (r: Result<(), NoSolution>)
        requires
            old(self).wf(),
        ensures
            keeps_shape(old(self), final(self)),
            ps@.len() != qs@.len() ==> r is Err,
            free_var_pairs(old(self)@.values, ps@, qs@) ==> r is Ok && final(out)@ == old(out)@,
        decreases fuel, ps, 0nat,
    {
        if ps.len() != qs.len() {
            return Err(NoSolution);
        }
        let mut i: usize = 0;
        while i < ps.len()
            invariant
                i <= ps@.len(),
                ps@.len() == qs@.len(),
                keeps_shape(old(self), self),
                free_var_pairs(old(self)@.values, ps@, qs@) ==> out@ == old(out)@ && keeps_unbound(old(self)@.values, self@.values),
            decreases ps@.len() - i,
        {
            proof {
                assert(decreases_to!(ps => ps[i as int]));
            }
            let ghost mid = self@.values;
            proof {
                if free_var_pairs(old(self)@.values, ps@, qs@) {
                    assert(free_ty_var(old(self)@.values, ps@[i as int]) && free_ty_var(old(self)@.values, qs@[i as int]));
                }
            }
            self.unify_param_rec(&ps[i], &qs[i], fuel, out)?;
            i = i + 1;
        }
        Ok(())
    }

    fn unify_ty_rec(&mut self, a: &Ty, b: &Ty, fuel: usize, out: &mut Vec<(Lifetime, Lifetime)>) -> (r: Result<(), NoSolution>)
        requires
            old(self).wf(),
        ensures
            keeps_shape(old(self), final(self)),
            unify_outcome(old(self)@, final(self)@, *a, *b, r is Ok),
            free_ty_var(old(self)@.values, ParameterKind::Ty(*a)) && free_ty_var(old(self)@.values, ParameterKind::Ty(*b))
                ==> final(out)@ == old(out)@ && keeps_unbound(old(self)@.values, final(self)@.values),
            match (*a, *b) {
                (Ty::Apply(p), Ty::Apply(q)) => p.name == q.name && free_var_pairs(old(self)@.values, p.parameters@, q.parameters@)
                    ==> r is Ok && final(out)@ == old(out)@,
                _ => true,
            },
        decreases fuel, a, 1nat,
    {
        let n = self.num_vars();
        if let Ty::Var(x) = a {
            if *x < n {
                let var = InferenceVariable::from_depth(*x);
                match self.probe(var) {
                    InferenceValue::Bound(ParameterKind::Ty(u)) => {
                        if fuel == 0 {
                            return Err(NoSolution);
                        }
                        return self.unify_ty_rec(&u, b, fuel - 1, out);
                    },
                    InferenceValue::Bound(ParameterKind::Lifetime(_)) => {
                        return Err(NoSolution);
                    },
                    InferenceValue::Unbound(_) => {
                        if let Ty::Var(y) = b {
                            if *y < n {
                                if let InferenceValue::Bound(ParameterKind::Ty(w)) = self.probe(InferenceVariable::from_depth(*y)) {
                                    if fuel == 0 {
                                        return Err(NoSolution);
                                    }
                                    return self.unify_ty_rec(a, &w, fuel - 1, out);
                                }
                            }
                        }
                        return self.unify_var_ty(var, b);
                    },
                }
            }
        }
        if let Ty::Var(y) = b {
            if *y < n {
                let var = InferenceVariable::from_depth(*y);
                match self.probe(var) {
                    InferenceValue::Bound(ParameterKind::Ty(w)) => {
                        if fuel == 0 {
                            return Err(NoSolution);
                        }
                        return self.unify_ty_rec(a, &w, fuel - 1, out);
                    },
                    InferenceValue::Bound(ParameterKind::Lifetime(_)) => {
                        return Err(NoSolution);
                    },
                    InferenceValue::Unbound(_) => {
                        return self.unify_var_ty(var, a);
                    },
                }
            }
        }
        match (a, b) {
            (Ty::Var(x), Ty::Var(y)) => if *x == *y { Ok(()) } else { Err(NoSolution) },
            (Ty::Apply(p), Ty::Apply(q)) => {
                if p.name != q.name {
                    return Err(NoSolution);
                }
                self.unify_params_rec(&p.parameters, &q.parameters, fuel, out)
            },
            (Ty::Projection(p), Ty::Projection(q)) => {
                if p.associated_ty_id != q.associated_ty_id {
                    return Err(NoSolution);
                }
                self.unify_params_rec(&p.parameters, &q.parameters, fuel, out)
            },
            _ => Err(NoSolution),
        }
    }

    /// Unifies `a` and `b`, both standing under no binder. On success the
    /// bindings stay and the lifetime pairs left to prove are returned; on
    /// failure (rigid names or shapes differ, a variable would contain itself
    /// or see a placeholder of a later universe) the table is left as it was.
    pub fn unify(&mut self, a: &Ty, b: &Ty) -> (r: Result<UnificationResult, NoSolution>)
        requires
            old(self).wf(),
        ensures
            keeps_shape(old(self), final(self)),
            r is Err ==> final(self)@ == old(self)@,
            unify_outcome(old(self)@, final(self)@, *a, *b, r is Ok),
            match (*a, *b) {
                (Ty::Apply(p), Ty::Apply(q)) => p.name == q.name && free_var_pairs(old(self)@.values, p.parameters@, q.parameters@)
                    ==> (r matches Ok(res) && res.constraints@.len() == 0),
                _ => true,
            },
    {
        let snapshot = self.snapshot();
        let n = self.num_vars();
        let mut out: Vec<(Lifetime, Lifetime)> = Vec::new();
        match self.unify_ty_rec(a, b, n, &mut out) {
            Ok(()) => {
                self.commit(snapshot);
                Ok(UnificationResult { constraints: out })
            },
            Err(e) => {
                self.rollback_to(snapshot);
                Err(e)
            },
        }
    }
}

} // verus!

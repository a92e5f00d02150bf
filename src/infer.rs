use vstd::prelude::*;
use crate::ir::{
    shift_ty, shift_fits_ty, shifted_ty, Canonical, Lifetime, Parameter, ParameterKind, Substitution,
    Ty, UCanonical, UniverseIndex,
};
use crate::store::{merged, store_marks, store_roots, store_values, store_wf, VarStore};
use crate::var::{InferenceValue, InferenceVariable};

verus! {

/// The inference variables of one proof search, with the universes made so far.
pub struct InferenceTable {
    store: VarStore,
    vars: Vec<InferenceVariable>,
    max_universe: UniverseIndex,
}

/// What `rollback_to` needs to bring a table back to an earlier state.
pub struct InferenceSnapshot {
    max_universe: UniverseIndex,
    vars: Vec<InferenceVariable>,
    saved: Ghost<(Seq<InferenceValue>, Seq<nat>)>,
}

/// The observable state of a table: each variable's value, each variable's
/// class representative, the variables, and the universe ceiling.
pub struct TableView {
    pub values: Seq<InferenceValue>,
    pub roots: Seq<nat>,
    pub vars: Seq<InferenceVariable>,
    pub max_universe: nat,
}

/// What `commit_if_ok(op)` leaves: on `Err` the table as it was; on `Ok`
/// the table that `op` handed back when given the table as it was.
pub open spec fn commit_if_ok_outcome<F, R, E>(
    before: InferenceTable,
    op: F,
    r: Result<R, E>,
    after: InferenceTable,
) -> bool where F: FnOnce(InferenceTable) -> (InferenceTable, Result<R, E>) {
    &&& r is Err ==> after@ == before@ && exists|t: InferenceTable, u: InferenceTable|
        t@ == before@ && #[trigger] op.ensures((t,), (u, r))
    &&& r is Ok ==> exists|t: InferenceTable, u: InferenceTable|
        t@ == before@ && #[trigger] op.ensures((t,), (u, r)) && after@ == u@
}

/// Rolling back to a snapshot restores, whatever happened in between, every
/// variable's value and class, the list of variables, and the universe
/// ceiling, as they were when the snapshot was taken.
pub proof fn lemma_snapshot_round_trip(before: InferenceTable, snap: InferenceSnapshot, after: InferenceTable)
    requires
        snap.recorded() == before@,
        after@ == snap.recorded(),
    ensures
        after@.values == before@.values,
        after@.roots == before@.roots,
        after@.vars.len() == before@.vars.len(),
        after@.max_universe == before@.max_universe,
{
}

/// `commit_if_ok` is transparent: when `op` fails, the table is exactly as
/// before and the failure is returned; when `op` succeeds, the table is the
/// one `op` produced from the table as it was.
pub proof fn lemma_commit_transparency<F, R, E>(before: InferenceTable, op: F, r: Result<R, E>, after: InferenceTable)
    where F: FnOnce(InferenceTable) -> (InferenceTable, Result<R, E>),
    requires
        commit_if_ok_outcome(before, op, r, after),
    ensures
        r is Err ==> after@ == before@,
        r is Err ==> exists|t: InferenceTable, u: InferenceTable| t@ == before@ && #[trigger] op.ensures((t,), (u, r)),
        r is Ok ==> exists|t: InferenceTable, u: InferenceTable|
            t@ == before@ && #[trigger] op.ensures((t,), (u, r)) && after@ == u@,
{
}

/// A fresh universe is above every universe issued before it: those are at
/// most the ceiling, and the fresh one is the ceiling plus one.
pub proof fn lemma_new_universe_fresh(issued: Seq<UniverseIndex>, ceiling: nat, fresh: UniverseIndex)
    requires
        forall|i: int| 0 <= i < issued.len() ==> (#[trigger] issued[i]).counter <= ceiling,
        fresh.counter == ceiling + 1,
    ensures
        fresh.counter > ceiling,
        forall|i: int| 0 <= i < issued.len() ==> #[trigger] issued[i] != fresh,
{
}

/// Variables numbered by position.
pub open spec fn numbered(vars: Seq<InferenceVariable>) -> bool {
    forall|i: int| 0 <= i < vars.len() ==> (#[trigger] vars[i]).index == i
}

impl InferenceSnapshot {
    /// The table state that this snapshot was taken of.
    pub closed spec fn recorded(&self) -> TableView {
        TableView {
            values: self.saved@.0,
            roots: self.saved@.1,
            vars: self.vars@,
            max_universe: self.max_universe.counter as nat,
        }
    }

    /// The cells saved by the store for this snapshot.
    pub closed spec fn cells(&self) -> (Seq<InferenceValue>, Seq<nat>) {
        self.saved@
    }

    pub closed spec fn wf(&self) -> bool {
        &&& self.saved@.0.len() == self.vars@.len()
        &&& self.saved@.1.len() == self.vars@.len()
        &&& self.vars@.len() <= u32::MAX
        &&& numbered(self.vars@)
        &&& forall|i: int| 0 <= i < self.saved@.1.len() ==> #[trigger] self.saved@.1[i] < self.saved@.1.len()
    }
}

impl View for InferenceTable {
    type V = TableView;

    closed spec fn view(&self) -> TableView {
        TableView {
            values: store_values(self.store),
            roots: store_roots(self.store),
            vars: self.vars@,
            max_universe: self.max_universe.counter as nat,
        }
    }
}

impl InferenceTable {
    pub closed spec fn wf(&self) -> bool {
        &&& store_wf(self.store)
        &&& self.vars@.len() == store_values(self.store).len()
        &&& numbered(self.vars@)
    }

    /// The cells saved by the snapshots still open, oldest first.
    pub closed spec fn open_snapshots(&self) -> Seq<(Seq<InferenceValue>, Seq<nat>)> {
        store_marks(self.store)
    }

    /// `s` is the newest snapshot still open on this table.
    pub open spec fn is_newest(&self, s: &InferenceSnapshot) -> bool {
        &&& self.open_snapshots().len() > 0
        &&& self.open_snapshots().last() == s.cells()
    }

    /// The value of the variable numbered `i`.
    pub open spec fn value_of(&self, i: int) -> InferenceValue {
        self@.values[i]
    }

    /// Create an empty inference table with no variables.
    pub fn new() -> (r: InferenceTable)
        ensures
            r.wf(),
            r@.values.len() == 0,
            r@.vars.len() == 0,
            r@.max_universe == 0,
            r.open_snapshots().len() == 0,
    {
        InferenceTable { store: VarStore::new(), vars: Vec::new(), max_universe: UniverseIndex::root() }
    }

    /// Creates and returns a fresh universe, greater than every universe made
    /// so far; it sees all of them.
    pub fn new_universe(&mut self) -> (r: UniverseIndex)
        requires
            old(self)@.max_universe < usize::MAX,
        ensures
            r.counter == old(self)@.max_universe + 1,
            final(self)@ == (TableView { max_universe: r.counter as nat, ..old(self)@ }),
            final(self).wf() == old(self).wf(),
            final(self).open_snapshots() == old(self).open_snapshots(),
    {
        let u = self.max_universe.next();
        self.max_universe = u;
        u
    }

    /// Makes room for the universes that `value` spans: the root exists
    /// already, so one fresh universe for each of the others.
    pub fn instantiate_universes<'v, T>(&mut self, value: &'v UCanonical<T>) -> (r: &'v Canonical<T>)
        requires
            value.universes >= 1,
            old(self)@.max_universe + value.universes - 1 <= usize::MAX,
        ensures
            r == &value.canonical,
            final(self)@ == (TableView {
                max_universe: (old(self)@.max_universe + value.universes - 1) as nat,
                ..old(self)@
            }),
            final(self).wf() == old(self).wf(),
            final(self).open_snapshots() == old(self).open_snapshots(),
    {
        let mut i: usize = 1;
        while i < value.universes
            invariant
                1 <= i <= value.universes,
                self@ == (TableView { max_universe: (old(self)@.max_universe + i - 1) as nat, ..old(self)@ }),
                self.wf() == old(self).wf(),
                self.open_snapshots() == old(self).open_snapshots(),
                old(self)@.max_universe + value.universes - 1 <= usize::MAX,
            decreases value.universes - i,
        {
            self.new_universe();
            i = i + 1;
        }
        &value.canonical
    }

    /// Current maximum universe: one that sees every name made so far.
    pub fn max_universe(&self) -> (r: UniverseIndex)
        ensures
            r.counter == self@.max_universe,
    {
        self.max_universe
    }

    /// Creates a new unbound variable stationed in `ui` and returns it. Its
    /// kind is the caller's to know.
    pub fn new_variable(&mut self, ui: UniverseIndex) -> (r: InferenceVariable)
        requires
            old(self).wf(),
            old(self)@.vars.len() < u32::MAX,
        ensures
            final(self).wf(),
            r.index == old(self)@.vars.len(),
            !old(self)@.vars.contains(r),
            final(self)@ == (TableView {
                values: old(self)@.values.push(InferenceValue::Unbound(ui)),
                roots: old(self)@.roots.push(r.index as nat),
                vars: old(self)@.vars.push(r),
                max_universe: old(self)@.max_universe,
            }),
            final(self).open_snapshots() == old(self).open_snapshots(),
    {
        let var = self.store.new_key(InferenceValue::Unbound(ui));
        proof {
            if old(self).vars@.contains(var) {
                let j = choose|j: int| 0 <= j < old(self).vars@.len() && old(self).vars@[j] == var;
                assert(old(self).vars@[j].index == j);
            }
        }
        self.vars.push(var);
        proof {
            assert(numbered(self.vars@)) by {
                assert forall|i: int| 0 <= i < self.vars@.len() implies (#[trigger] self.vars@[i]).index == i by {
                    if i < old(self).vars@.len() {
                        assert(self.vars@[i] == old(self).vars@[i]);
                    }
                }
            }
        }
        var
    }

    /// Takes a snapshot of the current state. Later `rollback_to` or `commit`
    /// must be called with it, newest snapshot first.
    pub fn snapshot(&mut self) -> (r: InferenceSnapshot)
        requires
            old(self).wf(),
        ensures
            r.wf(),
            r.recorded() == old(self)@,
            final(self)@ == old(self)@,
            final(self).wf(),
            final(self).is_newest(&r),
            final(self).open_snapshots().drop_last() == old(self).open_snapshots(),
    {
        self.store.open_snapshot();
        let vars = copy_vars(&self.vars);
        let snap = InferenceSnapshot {
            max_universe: self.max_universe,
            vars,
            saved: Ghost((store_values(self.store), store_roots(self.store))),
        };
        proof {
            assert(store_marks(self.store).drop_last() =~= store_marks(old(self).store));
        }
        snap
    }

    /// Restores the table to the state it had when `snapshot` was taken.
    pub fn rollback_to(&mut self, snapshot: InferenceSnapshot)
        requires
            old(self).is_newest(&snapshot),
            snapshot.wf(),
        ensures
            final(self).wf(),
            final(self)@ == snapshot.recorded(),
            final(self).open_snapshots() == old(self).open_snapshots().drop_last(),
    {
        self.store.rollback_snapshot();
        self.vars = snapshot.vars;
        self.max_universe = snapshot.max_universe;
    }

    /// An independent copy of a table that has no snapshot open.
    pub fn duplicate(&self) -> (r: InferenceTable)
        requires
            self.wf(),
            self.open_snapshots().len() == 0,
        ensures
            r.wf(),
            r@ == self@,
            r.open_snapshots().len() == 0,
    {
        InferenceTable { store: self.store.duplicate(), vars: copy_vars(&self.vars), max_universe: self.max_universe }
    }

    /// Makes permanent the changes made since `snapshot` was taken.
    pub fn commit(&mut self, snapshot: InferenceSnapshot)
        requires
            old(self).is_newest(&snapshot),
        ensures
            final(self)@ == old(self)@,
            final(self).wf() == old(self).wf(),
            final(self).open_snapshots() == old(self).open_snapshots().drop_last(),
    {
        self.store.commit_snapshot();
    }

    /// Runs `op` under a fresh snapshot: keeps its changes when it returns
    /// `Ok`, undoes them all when it returns `Err`. `op` takes the table and
    /// hands it back beside its result.
    pub fn commit_if_ok<F, R, E>(&mut self, op: F) -> (r: Result<R, E>)
        where
            F: FnOnce(InferenceTable) -> (InferenceTable, Result<R, E>),
        requires
            old(self).wf(),
            forall|t: InferenceTable| t.wf() ==> #[trigger] op.requires((t,)),
            forall|t: InferenceTable, out: (InferenceTable, Result<R, E>)|
                #[trigger] op.ensures((t,), out) ==> out.0.wf() && out.0.open_snapshots()
                    == t.open_snapshots(),
        ensures
            final(self).wf(),
            final(self).open_snapshots() == old(self).open_snapshots(),
            commit_if_ok_outcome(*old(self), op, r, *final(self)),
    {
        let snapshot = self.snapshot();
        let mut t = InferenceTable::new();
        core::mem::swap(self, &mut t);
        let ghost t_in = t;
        let (u, res) = op(t);
        *self = u;
        match res {
            Ok(v) => {
                self.commit(snapshot);
                Ok(v)
            },
            Err(err) => {
                self.rollback_to(snapshot);
                Err(err)
            },
        }
    }
}

impl InferenceTable {
    /// If `leaf` is a free inference variable (a depth of at least `binders`)
    /// that is bound, its value moved under `binders` binders; `None` when it
    /// is bound by a quantifier, unbound, or the move would leave `usize`.
    pub fn normalize_shallow(&mut self, leaf: &Ty, binders: usize) -> (r: Option<Ty>)
        requires
            old(self).wf(),
            match *leaf {
                Ty::Var(d) => d >= binders ==> {
                    &&& d - binders < old(self)@.values.len()
                    &&& !(old(self)@.values[d - binders] matches InferenceValue::Bound(
                        ParameterKind::Lifetime(_),
                    ))
                },
                _ => true,
            },
        ensures
            final(self)@ == old(self)@,
            final(self).open_snapshots() == old(self).open_snapshots(),
            final(self).wf() == old(self).wf(),
            match *leaf {
                Ty::Var(d) if d >= binders => match old(self)@.values[d - binders] {
                    InferenceValue::Bound(ParameterKind::Ty(t)) => {
                        &&& r is Some <==> shift_fits_ty(t, binders as nat, 0)
                        &&& r matches Some(u) ==> shifted_ty(t, u, binders as nat, 0)
                    },
                    _ => r is None,
                },
                _ => r is None,
            },
    {
        match leaf.var() {
            Some(depth) => {
                if depth < binders {
                    None
                } else {
                    let var = InferenceVariable::from_depth(depth - binders);
                    match self.store.probe_value(var) {
                        InferenceValue::Unbound(_) => None,
                        InferenceValue::Bound(ParameterKind::Ty(ty)) => shift_ty(&ty, binders, 0),
                        InferenceValue::Bound(ParameterKind::Lifetime(_)) => None,
                    }
                }
            },
            None => None,
        }
    }

    /// If `leaf` is an inference variable that is bound, its value.
    pub fn normalize_lifetime(&mut self, leaf: &Lifetime) -> (r: Option<Lifetime>)
        requires
            old(self).wf(),
            leaf matches Lifetime::Var(d) ==> {
                &&& d < old(self)@.values.len()
                &&& !(old(self)@.values[d as int] matches InferenceValue::Bound(ParameterKind::Ty(_)))
            },
        ensures
            final(self)@ == old(self)@,
            final(self).open_snapshots() == old(self).open_snapshots(),
            final(self).wf() == old(self).wf(),
            r == (match *leaf {
                Lifetime::Var(d) => match old(self)@.values[d as int] {
                    InferenceValue::Bound(ParameterKind::Lifetime(l)) => Some(l),
                    _ => None,
                },
                Lifetime::ForAll(_) => None,
            }),
    {
        match *leaf {
            Lifetime::Var(v) => self.probe_lifetime_var(InferenceVariable::from_depth(v)),
            Lifetime::ForAll(_) => None,
        }
    }

    /// The type that `var` is bound to, or `None` while it is unbound. `var`
    /// must be a type variable.
    pub fn probe_ty_var(&mut self, var: InferenceVariable) -> (r: Option<Ty>)
        requires
            var.index < old(self)@.values.len(),
            !(old(self)@.values[var.index as int] matches InferenceValue::Bound(ParameterKind::Lifetime(_))),
        ensures
            final(self)@ == old(self)@,
            final(self).open_snapshots() == old(self).open_snapshots(),
            final(self).wf() == old(self).wf(),
            match old(self)@.values[var.index as int] {
                InferenceValue::Bound(ParameterKind::Ty(t)) => r matches Some(u) && crate::ir::same_ty(t, u),
                _ => r is None,
            },
    {
        match self.store.probe_value(var) {
            InferenceValue::Unbound(_) => None,
            InferenceValue::Bound(ParameterKind::Ty(t)) => Some(crate::ir::copy_ty(&t)),
            InferenceValue::Bound(ParameterKind::Lifetime(_)) => None,
        }
    }

    /// The lifetime that `var` is bound to, or `None` while it is unbound.
    /// `var` must be a lifetime variable.
    pub fn probe_lifetime_var(&mut self, var: InferenceVariable) -> (r: Option<Lifetime>)
        requires
            var.index < old(self)@.values.len(),
            !(old(self)@.values[var.index as int] matches InferenceValue::Bound(ParameterKind::Ty(_))),
        ensures
            final(self)@ == old(self)@,
            final(self).open_snapshots() == old(self).open_snapshots(),
            final(self).wf() == old(self).wf(),
            r == (match old(self)@.values[var.index as int] {
                InferenceValue::Bound(ParameterKind::Lifetime(l)) => Some(l),
                _ => None,
            }),
    {
        match self.store.probe_value(var) {
            InferenceValue::Unbound(_) => None,
            InferenceValue::Bound(ParameterKind::Lifetime(l)) => Some(l),
            InferenceValue::Bound(ParameterKind::Ty(_)) => None,
        }
    }

    /// True if `var` is bound to a value.
    pub fn var_is_bound(&mut self, var: InferenceVariable) -> (r: bool)
        requires
            var.index < old(self)@.values.len(),
        ensures
            final(self)@ == old(self)@,
            final(self).open_snapshots() == old(self).open_snapshots(),
            final(self).wf() == old(self).wf(),
            r == (old(self)@.values[var.index as int] is Bound),
    {
        match self.store.probe_value(var) {
            InferenceValue::Unbound(_) => false,
            InferenceValue::Bound(_) => true,
        }
    }

    /// The universe of `var`, which must be unbound.
    pub fn universe_of_unbound_var(&mut self, var: InferenceVariable) -> (r: UniverseIndex)
        requires
            var.index < old(self)@.values.len(),
            old(self)@.values[var.index as int] is Unbound,
        ensures
            final(self)@ == old(self)@,
            final(self).open_snapshots() == old(self).open_snapshots(),
            final(self).wf() == old(self).wf(),
            r == old(self)@.values[var.index as int]->Unbound_0,
    {
        match self.store.probe_value(var) {
            InferenceValue::Unbound(ui) => ui,
            InferenceValue::Bound(_) => UniverseIndex::root(),
        }
    }
}

impl Ty {
    /// If this is a `Ty::Var(d)`, returns `Some(d)`.
    pub fn var(&self) -> (r: Option<usize>)
        ensures
            r == (match *self {
                Ty::Var(d) => Some(d),
                _ => None,
            }),
    {
        match self {
            Ty::Var(depth) => Some(*depth),
            _ => None,
        }
    }

    /// If this is a `Ty::Var`, the inference variable it denotes when it
    /// stands under no binder.
    pub fn inference_var(&self) -> (r: Option<InferenceVariable>)
        requires
            self matches Ty::Var(d) ==> d <= u32::MAX,
        ensures
            r == (match *self {
                Ty::Var(d) => Some(InferenceVariable { index: d as u32 }),
                _ => None,
            }),
    {
        match self.var() {
            Some(d) => Some(InferenceVariable::from_depth(d)),
            None => None,
        }
    }
}

impl Lifetime {
    /// If this is a `Lifetime::Var(d)`, returns `Some(d)`.
    pub fn var(&self) -> (r: Option<usize>)
        ensures
            r == (match *self {
                Lifetime::Var(d) => Some(d),
                _ => None,
            }),
    {
        match self {
            Lifetime::Var(depth) => Some(*depth),
            _ => None,
        }
    }

    /// If this is a `Lifetime::Var`, the inference variable it denotes when
    /// it stands under no binder.
    pub fn inference_var(&self) -> (r: Option<InferenceVariable>)
        requires
            self matches Lifetime::Var(d) ==> d <= u32::MAX,
        ensures
            r == (match *self {
                Lifetime::Var(d) => Some(InferenceVariable { index: d as u32 }),
                _ => None,
            }),
    {
        match self.var() {
            Some(d) => Some(InferenceVariable::from_depth(d)),
            None => None,
        }
    }
}

/// The inference variable that a parameter is, if it is one.
pub open spec fn param_var(p: Parameter) -> Option<nat> {
    match p {
        ParameterKind::Ty(Ty::Var(d)) => Some(d as nat),
        ParameterKind::Lifetime(Lifetime::Var(d)) => Some(d as nat),
        _ => None,
    }
}

/// No parameter of `ps` is a variable that `values` binds.
pub open spec fn trivial_within(ps: Seq<Parameter>, values: Seq<InferenceValue>) -> bool {
    forall|i: int| 0 <= i < ps.len() ==> (#[trigger] param_var(ps[i]) matches Some(v) ==> values[v as int] is Unbound)
}

impl Substitution {
    /// True if this substitution is the identity in `in_infer`: no parameter
    /// is a variable that is bound there.
    pub fn is_trivial_within(&self, in_infer: &mut InferenceTable) -> (r: bool)
        requires
            old(in_infer).wf(),
            forall|i: int| 0 <= i < self.parameters@.len() ==> (#[trigger] param_var(self.parameters@[i]) matches Some(v) ==> v < old(in_infer)@.values.len()),
        ensures
            final(in_infer)@ == old(in_infer)@,
            final(in_infer).open_snapshots() == old(in_infer).open_snapshots(),
            final(in_infer).wf() == old(in_infer).wf(),
            r == trivial_within(self.parameters@, old(in_infer)@.values),
    {
        let mut i: usize = 0;
        while i < self.parameters.len()
            invariant
                i <= self.parameters@.len(),
                in_infer@ == old(in_infer)@,
                in_infer.open_snapshots() == old(in_infer).open_snapshots(),
                in_infer.wf(),
                trivial_within(self.parameters@.subrange(0, i as int), old(in_infer)@.values),
                forall|j: int| 0 <= j < self.parameters@.len() ==> (#[trigger] param_var(self.parameters@[j]) matches Some(v) ==> v < old(in_infer)@.values.len()),
            decreases self.parameters@.len() - i,
        {
            let var = match &self.parameters[i] {
                ParameterKind::Ty(ty) => ty.var(),
                ParameterKind::Lifetime(lifetime) => lifetime.var(),
            };
            proof {
                assert(param_var(self.parameters@[i as int]) == (match var { Some(d) => Some(d as nat), None => None::<nat> }));
            }
            if let Some(d) = var {
                if in_infer.var_is_bound(InferenceVariable::from_depth(d)) {
                    return false;
                }
            }
            proof {
                let pre = self.parameters@.subrange(0, i + 1);
                assert forall|j: int| 0 <= j < pre.len() implies (#[trigger] param_var(pre[j]) matches Some(v) ==> old(in_infer)@.values[v as int] is Unbound) by {
                    if j < i {
                        assert(pre[j] == self.parameters@.subrange(0, i as int)[j]);
                    }
                }
            }
            i = i + 1;
        }
        proof {
            assert(self.parameters@.subrange(0, self.parameters@.len() as int) =~= self.parameters@);
        }
        true
    }
}

impl InferenceTable {
    /// The value of `var`'s class.
    pub(crate) fn probe(&mut self, var: InferenceVariable) -> (r: InferenceValue)
        requires
            var.index < old(self)@.values.len(),
        ensures
            r == old(self)@.values[var.index as int],
            final(self)@ == old(self)@,
            final(self).open_snapshots() == old(self).open_snapshots(),
            final(self).wf() == old(self).wf(),
    {
        self.store.probe_value(var)
    }

    /// The representative of `var`'s class.
    pub(crate) fn root_of(&mut self, var: InferenceVariable) -> (r: InferenceVariable)
        requires
            var.index < old(self)@.values.len(),
        ensures
            r.index == old(self)@.roots[var.index as int],
            old(self).wf() ==> r.index < old(self)@.values.len(),
            final(self)@ == old(self)@,
            final(self).open_snapshots() == old(self).open_snapshots(),
            final(self).wf() == old(self).wf(),
    {
        self.store.find(var)
    }

    /// Joins the classes of two unbound variables.
    pub(crate) fn union_unbound(&mut self, a: InferenceVariable, b: InferenceVariable)
        requires
            old(self).wf(),
            a.index < old(self)@.values.len(),
            b.index < old(self)@.values.len(),
            old(self)@.values[a.index as int] is Unbound,
            old(self)@.values[b.index as int] is Unbound,
        ensures
            final(self).wf(),
            final(self).open_snapshots() == old(self).open_snapshots(),
            final(self)@.vars == old(self)@.vars,
            final(self)@.max_universe == old(self)@.max_universe,
            ({
                let vals = old(self)@.values;
                let roots = old(self)@.roots;
                let ra = roots[a.index as int];
                let rb = roots[b.index as int];
                let ua = vals[a.index as int]->Unbound_0;
                let ub = vals[b.index as int]->Unbound_0;
                let v = InferenceValue::Unbound(if ua.counter <= ub.counter { ua } else { ub });
                if ra == rb {
                    final(self)@.values == vals && final(self)@.roots == roots
                } else {
                    ||| (final(self)@.values, final(self)@.roots) == merged(vals, roots, ra, rb, ra, v)
                    ||| (final(self)@.values, final(self)@.roots) == merged(vals, roots, ra, rb, rb, v)
                }
            }),
    {
        self.store.union_unbound(a, b);
    }

    /// Binds the unbound class of `a` to `v`.
    pub(crate) fn bind_var(&mut self, a: InferenceVariable, v: Parameter)
        requires
            old(self).wf(),
            a.index < old(self)@.values.len(),
            old(self)@.values[a.index as int] is Unbound,
        ensures
            final(self).wf(),
            final(self).open_snapshots() == old(self).open_snapshots(),
            final(self)@.vars == old(self)@.vars,
            final(self)@.max_universe == old(self)@.max_universe,
            ({
                let ra = old(self)@.roots[a.index as int];
                (final(self)@.values, final(self)@.roots) == merged(
                    old(self)@.values,
                    old(self)@.roots,
                    ra,
                    ra,
                    ra,
                    InferenceValue::Bound(v),
                )
            }),
    {
        self.store.bind(a, InferenceValue::Bound(v));
    }

    /// Number of variables made so far.
    pub fn num_vars(&self) -> (r: usize)
        requires
            self.wf(),
        ensures
            r == self@.values.len(),
            r == self@.vars.len(),
            r <= u32::MAX,
    {
        self.vars.len()
    }
}

fn copy_vars(v: &Vec<InferenceVariable>) -> (r: Vec<InferenceVariable>)
    ensures
        r@ == v@,
{
    let mut out: Vec<InferenceVariable> = Vec::new();
    let mut i: usize = 0;
    while i < v.len()
        invariant
            i <= v@.len(),
            out@ == v@.subrange(0, i as int),
        decreases v@.len() - i,
    {
        out.push(v[i]);
        i = i + 1;
    }
    proof {
        assert(v@.subrange(0, v@.len() as int) =~= v@);
    }
    out
}

} // verus!

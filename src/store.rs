use vstd::prelude::*;
use crate::var::{InferenceValue, InferenceVariable};

verus! {

/// Union-find cells of inference variables with nested undo, kept by
/// `ena::unify::InPlaceUnificationTable` together with the snapshots that are
/// still open on it.
#[verifier::external_body]
pub struct VarStore {
    table: ena::unify::InPlaceUnificationTable<InferenceVariable>,
    open: Vec<ena::unify::Snapshot<ena::unify::InPlace<InferenceVariable>>>,
}

/// The value that probing each key returns (the value of its class).
pub uninterp spec fn store_values(s: VarStore) -> Seq<InferenceValue>;

/// The representative (root key) of each key's class.
pub uninterp spec fn store_roots(s: VarStore) -> Seq<nat>;

/// For each open snapshot, oldest first, the values and roots it saw.
pub uninterp spec fn store_marks(s: VarStore) -> Seq<(Seq<InferenceValue>, Seq<nat>)>;

/// Keys and their class representatives agree in number and range.
pub open spec fn store_wf(s: VarStore) -> bool {
    &&& store_values(s).len() == store_roots(s).len()
    &&& store_values(s).len() <= u32::MAX
    &&& forall|i: int| 0 <= i < store_roots(s).len() ==> #[trigger] store_roots(s)[i] < store_roots(s).len()
}

/// Values and roots after merging the classes with representatives `ra` and
/// `rb` under the representative `r`, the merged class holding `v`.
pub open spec fn merged(
    values: Seq<InferenceValue>,
    roots: Seq<nat>,
    ra: nat,
    rb: nat,
    r: nat,
    v: InferenceValue,
) -> (Seq<InferenceValue>, Seq<nat>) {
    (
        Seq::new(values.len(), |i: int| if roots[i] == ra || roots[i] == rb { v } else { values[i] }),
        Seq::new(roots.len(), |i: int| if roots[i] == ra || roots[i] == rb { r } else { roots[i] }),
    )
}

impl VarStore {
    /// Relies on `InPlaceUnificationTable::new`: a table with no keys.
    #[verifier::external_body]
    pub(crate) fn new() -> (r: VarStore)
        ensures
            store_values(r).len() == 0,
            store_roots(r).len() == 0,
            store_marks(r).len() == 0,
            store_wf(r),
    {
        VarStore { table: ena::unify::InPlaceUnificationTable::new(), open: Vec::new() }
    }

    /// Relies on `Clone` of `InPlaceUnificationTable` (derived over its value
    /// vector and undo log): with no snapshot open, the copy has the same cells
    /// and no open snapshot.
    #[verifier::external_body]
    pub(crate) fn duplicate(&self) -> (r: VarStore)
        requires
            store_marks(*self).len() == 0,
        ensures
            store_values(r) == store_values(*self),
            store_roots(r) == store_roots(*self),
            store_marks(r).len() == 0,
    {
        VarStore { table: self.table.clone(), open: Vec::new() }
    }

    /// Relies on `UnificationTable::new_key`: the new key is numbered by the
    /// count of keys so far and is alone in its class.
    #[verifier::external_body]
    pub(crate) fn new_key(&mut self, v: InferenceValue) -> (k: InferenceVariable)
        requires
            store_values(*old(self)).len() < u32::MAX,
        ensures
            k.index == store_values(*old(self)).len(),
            store_values(*final(self)) == store_values(*old(self)).push(v),
            store_roots(*final(self)) == store_roots(*old(self)).push(k.index as nat),
            store_marks(*final(self)) == store_marks(*old(self)),
            store_wf(*old(self)) ==> store_wf(*final(self)),
    {
        self.table.new_key(v)
    }

    /// Relies on `UnificationTable::probe_value`: the value of the key's class.
    /// Path compression changes nothing that can be observed.
    #[verifier::external_body]
    pub(crate) fn probe_value(&mut self, k: InferenceVariable) -> (r: InferenceValue)
        requires
            k.index < store_values(*old(self)).len(),
        ensures
            r == store_values(*old(self))[k.index as int],
            store_values(*final(self)) == store_values(*old(self)),
            store_roots(*final(self)) == store_roots(*old(self)),
            store_marks(*final(self)) == store_marks(*old(self)),
    {
        self.table.probe_value(k)
    }

    /// Relies on `UnificationTable::find`: the representative of the key's
    /// class. Path compression changes nothing that can be observed.
    #[verifier::external_body]
    pub(crate) fn find(&mut self, k: InferenceVariable) -> (r: InferenceVariable)
        requires
            k.index < store_values(*old(self)).len(),
        ensures
            r.index == store_roots(*old(self))[k.index as int],
            store_values(*final(self)) == store_values(*old(self)),
            store_roots(*final(self)) == store_roots(*old(self)),
            store_marks(*final(self)) == store_marks(*old(self)),
    {
        self.table.find(k)
    }

    /// Relies on `UnificationTable::unify_var_var`, with `InferenceValue::merge`
    /// as the merge: two unbound classes become one, under the representative
    /// of either, stationed in the smaller universe.
    #[verifier::external_body]
    pub(crate) fn union_unbound(&mut self, a: InferenceVariable, b: InferenceVariable)
        requires
            store_wf(*old(self)),
            a.index < store_values(*old(self)).len(),
            b.index < store_values(*old(self)).len(),
            store_values(*old(self))[a.index as int] is Unbound,
            store_values(*old(self))[b.index as int] is Unbound,
        ensures
            ({
                let vals = store_values(*old(self));
                let roots = store_roots(*old(self));
                let ra = roots[a.index as int];
                let rb = roots[b.index as int];
                let ua = vals[a.index as int]->Unbound_0;
                let ub = vals[b.index as int]->Unbound_0;
                let v = InferenceValue::Unbound(if ua.counter <= ub.counter { ua } else { ub });
                if ra == rb {
                    store_values(*final(self)) == vals && store_roots(*final(self)) == roots
                } else {
                    ||| (store_values(*final(self)), store_roots(*final(self))) == merged(vals, roots, ra, rb, ra, v)
                    ||| (store_values(*final(self)), store_roots(*final(self))) == merged(vals, roots, ra, rb, rb, v)
                }
            }),
            store_marks(*final(self)) == store_marks(*old(self)),
    {
        let _ = self.table.unify_var_var(a, b);
    }

    /// Relies on `UnificationTable::unify_var_value`, with
    /// `InferenceValue::merge` as the merge: an unbound class takes the value.
    #[verifier::external_body]
    pub(crate) fn bind(&mut self, a: InferenceVariable, v: InferenceValue)
        requires
            store_wf(*old(self)),
            a.index < store_values(*old(self)).len(),
            store_values(*old(self))[a.index as int] is Unbound,
            v is Bound,
        ensures
            ({
                let vals = store_values(*old(self));
                let roots = store_roots(*old(self));
                let ra = roots[a.index as int];
                (store_values(*final(self)), store_roots(*final(self))) == merged(vals, roots, ra, ra, ra, v)
            }),
            store_marks(*final(self)) == store_marks(*old(self)),
    {
        let _ = self.table.unify_var_value(a, v);
    }

    /// Relies on `UnificationTable::snapshot`: opens a snapshot of the
    /// current cells.
    #[verifier::external_body]
    pub(crate) fn open_snapshot(&mut self)
        ensures
            store_values(*final(self)) == store_values(*old(self)),
            store_roots(*final(self)) == store_roots(*old(self)),
            store_marks(*final(self)) == store_marks(*old(self)).push(
                (store_values(*old(self)), store_roots(*old(self))),
            ),
    {
        let s = self.table.snapshot();
        self.open.push(s);
    }

    /// Relies on `UnificationTable::rollback_to`: undoes every change since
    /// the newest open snapshot, keys created since included.
    #[verifier::external_body]
    pub(crate) fn rollback_snapshot(&mut self)
        requires
            store_marks(*old(self)).len() > 0,
        ensures
            store_values(*final(self)) == store_marks(*old(self)).last().0,
            store_roots(*final(self)) == store_marks(*old(self)).last().1,
            store_marks(*final(self)) == store_marks(*old(self)).drop_last(),
            store_wf(*final(self)),
    {
        if let Some(s) = self.open.pop() {
            self.table.rollback_to(s);
        }
    }

    /// Relies on `UnificationTable::commit`: keeps the changes made since the
    /// newest open snapshot, which an outer snapshot can still undo.
    #[verifier::external_body]
    pub(crate) fn commit_snapshot(&mut self)
        requires
            store_marks(*old(self)).len() > 0,
        ensures
            store_values(*final(self)) == store_values(*old(self)),
            store_roots(*final(self)) == store_roots(*old(self)),
            store_marks(*final(self)) == store_marks(*old(self)).drop_last(),
    {
        if let Some(s) = self.open.pop() {
            self.table.commit(s);
        }
    }
}

} // verus!

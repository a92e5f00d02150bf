use vstd::prelude::*;
use crate::ir::{Lifetime, Parameter, ParameterKind, Ty, UniverseIndex};

verus! {

/// A handle on one cell of the inference store.
#[derive(Clone, Copy, Debug, PartialEq, Eq, Structural)]
pub struct InferenceVariable {
    pub index: u32,
}

/// What a cell of the inference store holds.
#[derive(Clone, Debug)]
pub enum InferenceValue {
    /// Not yet known; stationed in a universe.
    Unbound(UniverseIndex),
    /// Known to be this type or lifetime.
    Bound(Parameter),
}

/// An inference variable tagged with its kind.
pub type ParameterInferenceVariable = ParameterKind<InferenceVariable, InferenceVariable>;

impl InferenceVariable {
    /// The variable that a de Bruijn depth denotes outside every binder.
    pub fn from_depth(depth: usize) -> (r: InferenceVariable)
        requires
            depth <= u32::MAX,
        ensures
            r.index == depth,
    {
        InferenceVariable { index: depth as u32 }
    }

    /// This variable as a type term.
    pub fn to_ty(self) -> (r: Ty)
        ensures
            r == Ty::Var(self.index as usize),
    {
        Ty::Var(self.index as usize)
    }

    /// This variable as a lifetime term.
    pub fn to_lifetime(self) -> (r: Lifetime)
        ensures
            r == Lifetime::Var(self.index as usize),
    {
        Lifetime::Var(self.index as usize)
    }
}

impl ParameterInferenceVariable {
    /// The term of the right kind that denotes this variable.
    pub fn to_parameter(self) -> (r: Parameter)
        ensures
            r == (match self {
                ParameterKind::Ty(v) => ParameterKind::Ty(Ty::Var(v.index as usize)),
                ParameterKind::Lifetime(v) => ParameterKind::Lifetime(
                    Lifetime::Var(v.index as usize),
                ),
            }),
    {
        match self {
            ParameterKind::Ty(v) => ParameterKind::Ty(v.to_ty()),
            ParameterKind::Lifetime(v) => ParameterKind::Lifetime(v.to_lifetime()),
        }
    }
}

impl InferenceValue {
    /// The merge of two cells joined by the store: two unknowns keep the
    /// smaller universe, an unknown yields to a known value, and two known
    /// values do not merge.
    pub fn merge(a: &InferenceValue, b: &InferenceValue) -> (r: Result<InferenceValue, (InferenceValue, InferenceValue)>)
        ensures
            (a is Unbound && b is Unbound) ==> r == Ok::<InferenceValue, (InferenceValue, InferenceValue)>(
                InferenceValue::Unbound(
                    if a->Unbound_0.counter <= b->Unbound_0.counter { a->Unbound_0 } else { b->Unbound_0 },
                ),
            ),
            (a is Bound && b is Bound) ==> r is Err,
            (a is Bound) != (b is Bound) ==> r is Ok,
    {
        match (a, b) {
            (InferenceValue::Unbound(x), InferenceValue::Unbound(y)) => {
                if x.counter <= y.counter {
                    Ok(InferenceValue::Unbound(*x))
                } else {
                    Ok(InferenceValue::Unbound(*y))
                }
            },
            (InferenceValue::Unbound(_), InferenceValue::Bound(_)) => Ok(b.clone()),
            (InferenceValue::Bound(_), InferenceValue::Unbound(_)) => Ok(a.clone()),
            (InferenceValue::Bound(_), InferenceValue::Bound(_)) => Err((a.clone(), b.clone())),
        }
    }
}

impl ena::unify::UnifyKey for InferenceVariable {
    type Value = InferenceValue;

    fn index(&self) -> u32 {
        self.index
    }

    fn from_index(u: u32) -> Self {
        InferenceVariable { index: u }
    }

    fn tag() -> &'static str {
        "InferenceVariable"
    }
}

impl ena::unify::UnifyValue for InferenceValue {
    type Error = (InferenceValue, InferenceValue);

    fn unify_values(a: &Self, b: &Self) -> Result<Self, Self::Error> {
        InferenceValue::merge(a, b)
    }
}

} // verus!

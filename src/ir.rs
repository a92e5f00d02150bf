use vstd::prelude::*;

verus! {

broadcast use vstd::std_specs::vec::group_vec_axioms;

/// A scope of visibility. A universe sees itself and every universe with a
/// smaller counter.
#[derive(Clone, Copy, Debug, PartialEq, Eq, Structural)]
pub struct UniverseIndex {
    pub counter: usize,
}

impl UniverseIndex {
    /// The outermost universe.
    pub fn root() -> (r: UniverseIndex)
        ensures
            r.counter == 0,
    {
        UniverseIndex { counter: 0 }
    }

    /// The universe right after this one.
    pub fn next(self) -> (r: UniverseIndex)
        requires
            self.counter < usize::MAX,
        ensures
            r.counter == self.counter + 1,
    {
        UniverseIndex { counter: self.counter + 1 }
    }

    /// True if a variable stationed in `self` may see a name stationed in `other`.
    pub fn can_see(self, other: UniverseIndex) -> (r: bool)
        ensures
            r == (other.counter <= self.counter),
    {
        other.counter <= self.counter
    }
}

/// Identifier of an item (a type, a trait, an associated type) of the program.
#[derive(Clone, Copy, Debug, PartialEq, Eq, Structural)]
pub struct ItemId {
    pub index: usize,
}

/// The head of a rigid type application.
#[derive(Clone, Copy, Debug, PartialEq, Eq, Structural)]
pub enum TypeName {
    /// A named type of the program.
    ItemId(ItemId),
    /// A placeholder stationed in a universe.
    ForAll(UniverseIndex),
    /// An associated type, taken as a rigid name.
    AssociatedType(ItemId),
}

/// A type term; variables are de Bruijn depths.
#[derive(Debug)]
pub enum Ty {
    Var(usize),
    Apply(ApplicationTy),
    Projection(ProjectionTy),
    ForAll(Box<QuantifiedTy>),
}

/// A rigid type constructor applied to its parameters.
#[derive(Debug)]
pub struct ApplicationTy {
    pub name: TypeName,
    pub parameters: Vec<Parameter>,
}

/// Access to an associated type, selected by its trait.
#[derive(Debug)]
pub struct ProjectionTy {
    pub associated_ty_id: ItemId,
    pub parameters: Vec<Parameter>,
}

/// A type under `num_binders` new binders.
#[derive(Debug)]
pub struct QuantifiedTy {
    pub num_binders: usize,
    pub ty: Ty,
}

/// A lifetime term: a de Bruijn depth or a placeholder of a universe.
#[derive(Clone, Copy, Debug, PartialEq, Eq, Structural)]
pub enum Lifetime {
    Var(usize),
    ForAll(UniverseIndex),
}

/// A type-or-lifetime tag, generic over the payload of each side.
#[derive(Clone, Copy, Debug, PartialEq, Eq)]
pub enum ParameterKind<T, L> {
    Ty(T),
    Lifetime(L),
}

/// A type or a lifetime value.
pub type Parameter = ParameterKind<Ty, Lifetime>;

/// A binding of each binder position to a type or lifetime.
#[derive(Debug)]
pub struct Substitution {
    pub parameters: Vec<Parameter>,
}

/// A value closed over positional binders, each recorded by its kind only.
#[derive(Debug)]
pub struct Canonical<T> {
    pub value: T,
    pub binders: Vec<ParameterKind<(), ()>>,
}

/// A canonical value together with the number of universes it spans,
/// renumbered densely from the root.
#[derive(Debug)]
pub struct UCanonical<T> {
    pub canonical: Canonical<T>,
    pub universes: usize,
}

/// A trait applied to parameters; the first parameter is the self type.
#[derive(Debug)]
pub struct TraitRef {
    pub trait_id: ItemId,
    pub parameters: Vec<Parameter>,
}

/// The associated type `projection` normalizes to `ty`.
#[derive(Debug)]
pub struct Normalize {
    pub projection: ProjectionTy,
    pub ty: Ty,
}

/// Access to an associated type by name, before its trait is selected; the
/// first parameter is the self type.
#[derive(Debug)]
pub struct UnselectedProjectionTy {
    pub assoc_name: String,
    pub parameters: Vec<Parameter>,
}

/// The associated type named by `projection` normalizes to `ty`, for some
/// trait still to be selected.
#[derive(Debug)]
pub struct UnselectedNormalize {
    pub projection: UnselectedProjectionTy,
    pub ty: Ty,
}

/// A type or a trait reference is well formed.
#[derive(Debug)]
pub enum WellFormed {
    Ty(Ty),
    TraitRef(TraitRef),
}

/// A goal about the program's items.
#[derive(Debug)]
pub enum DomainGoal {
    Implemented(TraitRef),
    Normalize(Normalize),
    UnselectedNormalize(UnselectedNormalize),
    WellFormed(WellFormed),
    InScope(ItemId),
}

/// Two parameters are equal.
#[derive(Debug)]
pub struct EqGoal {
    pub a: Parameter,
    pub b: Parameter,
}

/// A goal without sub-goals.
#[derive(Debug)]
pub enum LeafGoal {
    EqGoal(EqGoal),
    DomainGoal(DomainGoal),
}

/// How a quantified goal binds its variables.
#[derive(Clone, Copy, Debug, PartialEq, Eq, Structural)]
pub enum QuantifierKind {
    ForAll,
    Exists,
}

/// The clauses that a goal may assume; read, never changed, by the
/// inference table.
#[derive(Debug)]
pub struct Environment {
    pub clauses: Vec<DomainGoal>,
}

/// A goal together with the environment it is to be proved in.
#[derive(Debug)]
pub struct InEnvironment<G> {
    pub environment: Environment,
    pub goal: G,
}

/// A value under binders, each recorded by its kind.
#[derive(Debug)]
pub struct Binders<T> {
    pub binders: Vec<ParameterKind<(), ()>>,
    pub value: T,
}

/// The goal algebra of the solver.
#[derive(Debug)]
pub enum Goal {
    Quantified(QuantifierKind, Box<Binders<Goal>>),
    Implies(Vec<DomainGoal>, Box<Goal>),
    And(Box<Goal>, Box<Goal>),
    Not(Box<Goal>),
    Leaf(LeafGoal),
    /// Search gave up: neither proved nor disproved.
    CannotProve,
}

/// Items of a list, as rendered between angle brackets.
pub struct Angle<'a, T>(pub &'a [T]);

impl<'a, T> Angle<'a, T> {
    /// Number of items between the brackets.
    pub fn len(&self) -> (r: usize)
        ensures
            r == self.0@.len(),
    {
        self.0.len()
    }

    /// True when nothing (not even the brackets) is rendered.
    pub fn is_empty(&self) -> (r: bool)
        ensures
            r == (self.0@.len() == 0),
    {
        self.0.len() == 0
    }
}

/// `u` is `t` with every variable of depth at least `c` moved up by `k`.
pub open spec fn shifted_ty(t: Ty, u: Ty, k: nat, c: nat) -> bool
    decreases t,
{
    match t {
        Ty::Var(d) => u is Var && u->Var_0 == (if d < c { d as int } else { d + k }),
        Ty::Apply(a) => u is Apply && u->Apply_0.name == a.name && shifted_params(
            a.parameters@,
            u->Apply_0.parameters@,
            k,
            c,
        ),
        Ty::Projection(p) => u is Projection && u->Projection_0.associated_ty_id
            == p.associated_ty_id && shifted_params(
            p.parameters@,
            u->Projection_0.parameters@,
            k,
            c,
        ),
        Ty::ForAll(q) => u is ForAll && u->ForAll_0.num_binders == q.num_binders && shifted_ty(
            q.ty,
            u->ForAll_0.ty,
            k,
            (c + q.num_binders) as nat,
        ),
    }
}

pub open spec fn shifted_lifetime(l: Lifetime, m: Lifetime, k: nat, c: nat) -> bool {
    match l {
        Lifetime::Var(d) => m is Var && m->Var_0 == (if d < c { d as int } else { d + k }),
        Lifetime::ForAll(u) => m == l,
    }
}

pub open spec fn shifted_param(p: Parameter, q: Parameter, k: nat, c: nat) -> bool
    decreases p,
{
    match p {
        ParameterKind::Ty(t) => q is Ty && shifted_ty(t, q->Ty_0, k, c),
        ParameterKind::Lifetime(l) => q is Lifetime && shifted_lifetime(l, q->Lifetime_0, k, c),
    }
}

pub open spec fn shifted_params(ps: Seq<Parameter>, qs: Seq<Parameter>, k: nat, c: nat) -> bool
    decreases ps,
{
    ps.len() == qs.len() && (ps.len() == 0 || (shifted_params(
        ps.drop_last(),
        qs.drop_last(),
        k,
        c,
    ) && shifted_param(ps.last(), qs.last(), k, c)))
}

/// Shifting `t` by `k` above cutoff `c` keeps every depth within `usize`.
pub open spec fn shift_fits_ty(t: Ty, k: nat, c: nat) -> bool
    decreases t,
{
    match t {
        Ty::Var(d) => d < c || d + k <= usize::MAX,
        Ty::Apply(a) => shift_fits_params(a.parameters@, k, c),
        Ty::Projection(p) => shift_fits_params(p.parameters@, k, c),
        Ty::ForAll(q) => c + q.num_binders <= usize::MAX && shift_fits_ty(
            q.ty,
            k,
            (c + q.num_binders) as nat,
        ),
    }
}

pub open spec fn shift_fits_param(p: Parameter, k: nat, c: nat) -> bool
    decreases p,
{
    match p {
        ParameterKind::Ty(t) => shift_fits_ty(t, k, c),
        ParameterKind::Lifetime(Lifetime::Var(d)) => d < c || d + k <= usize::MAX,
        ParameterKind::Lifetime(Lifetime::ForAll(_)) => true,
    }
}

pub open spec fn shift_fits_params(ps: Seq<Parameter>, k: nat, c: nat) -> bool
    decreases ps,
{
    ps.len() == 0 || (shift_fits_params(ps.drop_last(), k, c) && shift_fits_param(
        ps.last(),
        k,
        c,
    ))
}

/// `u` is a copy of `t`, node for node.
pub open spec fn same_ty(t: Ty, u: Ty) -> bool {
    shifted_ty(t, u, 0, 0)
}

/// Copies a list of parameters, moving free variables as `shift_ty` does.
fn shift_params(ps: &Vec<Parameter>, k: usize, c: usize) -> (r: Option<Vec<Parameter>>)
    ensures
        r is Some <==> shift_fits_params(ps@, k as nat, c as nat),
        r matches Some(qs) ==> shifted_params(ps@, qs@, k as nat, c as nat),
    decreases ps, 0nat,
{
    let mut out: Vec<Parameter> = Vec::new();
    let mut i: usize = 0;
    while i < ps.len()
        invariant
            i <= ps@.len(),
            out@.len() == i,
            shifted_params(ps@.subrange(0, i as int), out@, k as nat, c as nat),
            shift_fits_params(ps@.subrange(0, i as int), k as nat, c as nat),
        decreases ps@.len() - i,
    {
        proof {
            assert(decreases_to!(ps => ps[i as int]));
        }
        let q = match shift_param(&ps[i], k, c) {
            Some(q) => q,
            None => {
                proof {
                    if shift_fits_params(ps@, k as nat, c as nat) {
                        lemma_fits_params_prefix(ps@, (i + 1) as int, k as nat, c as nat);
                        assert(ps@.subrange(0, i + 1).last() == ps@[i as int]);
                    }
                }
                return None;
            },
        };
        let ghost prev = out@;
        out.push(q);
        proof {
            let pre = ps@.subrange(0, i + 1);
            assert(pre.drop_last() =~= ps@.subrange(0, i as int));
            assert(out@.drop_last() =~= prev);
        }
        i = i + 1;
    }
    proof {
        assert(ps@.subrange(0, ps@.len() as int) =~= ps@);
    }
    Some(out)
}

proof fn lemma_fits_params_prefix(ps: Seq<Parameter>, n: int, k: nat, c: nat)
    requires
        0 <= n <= ps.len(),
        shift_fits_params(ps, k, c),
    ensures
        shift_fits_params(ps.subrange(0, n), k, c),
    decreases ps.len(),
{
    if n < ps.len() {
        assert(ps.drop_last().subrange(0, n) =~= ps.subrange(0, n));
        lemma_fits_params_prefix(ps.drop_last(), n, k, c);
    } else {
        assert(ps.subrange(0, n) =~= ps);
    }
}

fn shift_param(p: &Parameter, k: usize, c: usize) -> (r: Option<Parameter>)
    ensures
        r is Some <==> shift_fits_param(*p, k as nat, c as nat),
        r matches Some(q) ==> shifted_param(*p, q, k as nat, c as nat),
    decreases p, 1nat,
{
    match p {
        ParameterKind::Ty(t) => match shift_ty(t, k, c) {
            Some(u) => Some(ParameterKind::Ty(u)),
            None => None,
        },
        ParameterKind::Lifetime(Lifetime::Var(d)) => {
            if *d < c {
                Some(ParameterKind::Lifetime(Lifetime::Var(*d)))
            } else if *d <= usize::MAX - k {
                Some(ParameterKind::Lifetime(Lifetime::Var(*d + k)))
            } else {
                None
            }
        },
        ParameterKind::Lifetime(Lifetime::ForAll(u)) => Some(
            ParameterKind::Lifetime(Lifetime::ForAll(*u)),
        ),
    }
}

/// Moves every variable of `t` of depth at least `c` up by `k`; `None` when
/// a depth would leave `usize`.
pub fn shift_ty(t: &Ty, k: usize, c: usize) -> (r: Option<Ty>)
    ensures
        r is Some <==> shift_fits_ty(*t, k as nat, c as nat),
        r matches Some(u) ==> shifted_ty(*t, u, k as nat, c as nat),
    decreases t, 1nat,
{
    match t {
        Ty::Var(d) => {
            if *d < c {
                Some(Ty::Var(*d))
            } else if *d <= usize::MAX - k {
                Some(Ty::Var(*d + k))
            } else {
                None
            }
        },
        Ty::Apply(a) => match shift_params(&a.parameters, k, c) {
            Some(ps) => Some(Ty::Apply(ApplicationTy { name: a.name, parameters: ps })),
            None => None,
        },
        Ty::Projection(p) => match shift_params(&p.parameters, k, c) {
            Some(ps) => Some(
                Ty::Projection(ProjectionTy { associated_ty_id: p.associated_ty_id, parameters: ps }),
            ),
            None => None,
        },
        Ty::ForAll(q) => {
            if q.num_binders <= usize::MAX - c {
                match shift_ty(&q.ty, k, c + q.num_binders) {
                    Some(u) => Some(
                        Ty::ForAll(Box::new(QuantifiedTy { num_binders: q.num_binders, ty: u })),
                    ),
                    None => None,
                }
            } else {
                None
            }
        },
    }
}

fn copy_params(ps: &Vec<Parameter>) -> (r: Vec<Parameter>)
    ensures
        forall|c: nat| #[trigger] shifted_params(ps@, r@, 0, c),
    decreases ps, 0nat,
{
    let mut out: Vec<Parameter> = Vec::new();
    let mut i: usize = 0;
    while i < ps.len()
        invariant
            i <= ps@.len(),
            out@.len() == i,
            forall|c: nat| #[trigger] shifted_params(ps@.subrange(0, i as int), out@, 0, c),
        decreases ps@.len() - i,
    {
        proof {
            assert(decreases_to!(ps => ps[i as int]));
        }
        let q = copy_param(&ps[i]);
        let ghost prev = out@;
        out.push(q);
        proof {
            let pre = ps@.subrange(0, i + 1);
            assert(pre.drop_last() =~= ps@.subrange(0, i as int));
            assert(out@.drop_last() =~= prev);
            assert forall|c: nat| #[trigger] shifted_params(pre, out@, 0, c) by {
                assert(shifted_params(ps@.subrange(0, i as int), prev, 0, c));
                assert(shifted_param(ps@[i as int], q, 0, c));
            }
        }
        i = i + 1;
    }
    proof {
        assert(ps@.subrange(0, ps@.len() as int) =~= ps@);
    }
    out
}

fn copy_param(p: &Parameter) -> (r: Parameter)
    ensures
        forall|c: nat| #[trigger] shifted_param(*p, r, 0, c),
    decreases p, 1nat,
{
    match p {
        ParameterKind::Ty(t) => {
            let u = copy_ty(t);
            let r = ParameterKind::Ty(u);
            assert forall|c: nat| #[trigger] shifted_param(*p, r, 0, c) by {
                assert(shifted_ty(*t, u, 0, c));
            }
            r
        },
        ParameterKind::Lifetime(l) => {
            let r = ParameterKind::Lifetime(*l);
            assert forall|c: nat| #[trigger] shifted_param(*p, r, 0, c) by {
                assert(shifted_lifetime(*l, *l, 0, c));
            }
            r
        },
    }
}

/// A copy of `t`, node for node.
pub fn copy_ty(t: &Ty) -> (r: Ty)
    ensures
        forall|c: nat| #[trigger] shifted_ty(*t, r, 0, c),
    decreases t, 1nat,
{
    match t {
        Ty::Var(d) => {
            let r = Ty::Var(*d);
            assert forall|c: nat| #[trigger] shifted_ty(*t, r, 0, c) by {
                reveal_with_fuel(shifted_ty, 1);
            }
            r
        },
        Ty::Apply(a) => {
            let ps = copy_params(&a.parameters);
            let r = Ty::Apply(ApplicationTy { name: a.name, parameters: ps });
            assert forall|c: nat| #[trigger] shifted_ty(*t, r, 0, c) by {
                assert(shifted_params(a.parameters@, ps@, 0, c));
            }
            r
        },
        Ty::Projection(p) => {
            let ps = copy_params(&p.parameters);
            let r = Ty::Projection(
                ProjectionTy { associated_ty_id: p.associated_ty_id, parameters: ps },
            );
            assert forall|c: nat| #[trigger] shifted_ty(*t, r, 0, c) by {
                assert(shifted_params(p.parameters@, ps@, 0, c));
            }
            r
        },
        Ty::ForAll(q) => {
            let u = copy_ty(&q.ty);
            let r = Ty::ForAll(Box::new(QuantifiedTy { num_binders: q.num_binders, ty: u }));
            assert forall|c: nat| #[trigger] shifted_ty(*t, r, 0, c) by {
                assert(shifted_ty(q.ty, u, 0, (c + q.num_binders) as nat));
            }
            r
        },
    }
}

impl Clone for Ty {
    fn clone(&self) -> (r: Ty)
        ensures
            same_ty(*self, r),
    {
        copy_ty(self)
    }
}

} // verus!

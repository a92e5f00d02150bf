use vstd::prelude::*;
use crate::ir::{
    ApplicationTy, Canonical, Lifetime, Parameter, ParameterKind, ProjectionTy, QuantifiedTy, Ty, TypeName, UCanonical,
    UniverseIndex,
};

verus! {

broadcast use vstd::std_specs::vec::group_vec_axioms;

/// A placeholder of universe `u` occurs in `t`.
pub open spec fn has_universe(t: Ty, u: nat) -> bool
    decreases t, 1nat,
{
    match t {
        Ty::Var(_) => false,
        Ty::Apply(a) => (a.name matches TypeName::ForAll(x) && x.counter == u) || has_universe_params(a.parameters@, u),
        Ty::Projection(p) => has_universe_params(p.parameters@, u),
        Ty::ForAll(q) => has_universe(q.ty, u),
    }
}

pub open spec fn has_universe_param(p: Parameter, u: nat) -> bool
    decreases p, 2nat,
{
    match p {
        ParameterKind::Ty(t) => has_universe(t, u),
        ParameterKind::Lifetime(Lifetime::ForAll(x)) => x.counter == u,
        ParameterKind::Lifetime(Lifetime::Var(_)) => false,
    }
}

pub open spec fn has_universe_params(ps: Seq<Parameter>, u: nat) -> bool
    decreases ps, 0nat,
{
    ps.len() > 0 && (has_universe_params(ps.drop_last(), u) || has_universe_param(ps.last(), u))
}

/// The new number of universe `u`: the root stays 0, any other universe is
/// one more than the count of the non-root universes of `us` below it.
pub open spec fn rank(us: Seq<nat>, u: nat) -> nat
    decreases us.len(),
{
    if u == 0 {
        0
    } else if us.len() == 0 {
        1
    } else {
        rank(us.drop_last(), u) + (if 0 < us.last() && us.last() < u { 1nat } else { 0nat })
    }
}

proof fn lemma_rank_monotone(us: Seq<nat>, a: nat, b: nat)
    requires
        0 < a <= b,
    ensures
        rank(us, a) <= rank(us, b),
    decreases us.len(),
{
    if us.len() > 0 {
        lemma_rank_monotone(us.drop_last(), a, b);
    }
}

/// The renumbering keeps the order of universes: of two universes where
/// the smaller occurs in `us`, the smaller gets the smaller number.
pub proof fn lemma_rank_order(us: Seq<nat>, a: nat, b: nat)
    requires
        a < b,
        a == 0 || us.contains(a),
    ensures
        rank(us, a) < rank(us, b),
    decreases us.len(),
{
    if a == 0 {
        assert(rank(us, b) >= 1) by {
            lemma_rank_at_least_one(us, b);
        }
    } else {
        let j = choose|j: int| 0 <= j < us.len() && us[j] == a;
        let rest = us.drop_last();
        if j == us.len() - 1 {
            lemma_rank_monotone(rest, a, b);
        } else {
            assert(rest[j] == a);
            lemma_rank_order(rest, a, b);
        }
    }
}

proof fn lemma_rank_at_least_one(us: Seq<nat>, u: nat)
    requires
        u > 0,
    ensures
        rank(us, u) >= 1,
    decreases us.len(),
{
    if us.len() > 0 {
        lemma_rank_at_least_one(us.drop_last(), u);
    }
}

/// Number of non-root universes in `us`.
pub open spec fn count_non_root(us: Seq<nat>) -> nat
    decreases us.len(),
{
    if us.len() == 0 {
        0
    } else {
        count_non_root(us.drop_last()) + (if us.last() > 0 { 1nat } else { 0nat })
    }
}

/// `v` is `t` with each placeholder universe `u` renumbered to `rank(us, u)`.
pub open spec fn renumbered(t: Ty, v: Ty, us: Seq<nat>) -> bool
    decreases t, 1nat,
{
    match t {
        Ty::Var(_) => v == t,
        Ty::Apply(a) => v is Apply && renumbered_params(a.parameters@, v->Apply_0.parameters@, us) && match a.name {
            TypeName::ForAll(x) => v->Apply_0.name == TypeName::ForAll(UniverseIndex { counter: rank(us, x.counter as nat) as usize }),
            _ => v->Apply_0.name == a.name,
        },
        Ty::Projection(p) => v is Projection && v->Projection_0.associated_ty_id == p.associated_ty_id
            && renumbered_params(p.parameters@, v->Projection_0.parameters@, us),
        Ty::ForAll(q) => v is ForAll && v->ForAll_0.num_binders == q.num_binders && renumbered(q.ty, v->ForAll_0.ty, us),
    }
}

pub open spec fn renumbered_param(p: Parameter, q: Parameter, us: Seq<nat>) -> bool
    decreases p, 2nat,
{
    match p {
        ParameterKind::Ty(t) => q is Ty && renumbered(t, q->Ty_0, us),
        ParameterKind::Lifetime(Lifetime::ForAll(x)) => q == ParameterKind::<Ty, Lifetime>::Lifetime(
            Lifetime::ForAll(UniverseIndex { counter: rank(us, x.counter as nat) as usize }),
        ),
        ParameterKind::Lifetime(Lifetime::Var(_)) => q == p,
    }
}

pub open spec fn renumbered_params(ps: Seq<Parameter>, qs: Seq<Parameter>, us: Seq<nat>) -> bool
    decreases ps, 0nat,
{
    ps.len() == qs.len() && (ps.len() == 0 || (renumbered_params(ps.drop_last(), qs.drop_last(), us)
        && renumbered_param(ps.last(), qs.last(), us)))
}

/// The entries of `v` as natural numbers.
pub open spec fn nats(v: Seq<usize>) -> Seq<nat> {
    v.map_values(|x: usize| x as nat)
}

/// Adds `u` to `acc` unless it is there.
fn note_universe(acc: &mut Vec<usize>, u: usize)
    ensures
        forall|x: nat| #[trigger] nats(final(acc)@).contains(x) <==> (nats(old(acc)@).contains(x) || x == u),
        nats(old(acc)@).no_duplicates() ==> nats(final(acc)@).no_duplicates(),
{
    let mut i: usize = 0;
    while i < acc.len()
        invariant
            i <= acc@.len(),
            forall|j: int| 0 <= j < i ==> acc@[j] != u,
        decreases acc@.len() - i,
    {
        if acc[i] == u {
            proof {
                assert(nats(acc@)[i as int] == u);
                assert forall|x: nat| nats(acc@).contains(x) <==> (nats(old(acc)@).contains(x) || x == u) by {
                    if x == u {
                        assert(nats(acc@)[i as int] == x);
                    }
                }
            }
            return;
        }
        i = i + 1;
    }
    let ghost before = nats(acc@);
    acc.push(u);
    proof {
        assert(nats(acc@) =~= before.push(u as nat));
        assert(!before.contains(u as nat)) by {
            if before.contains(u as nat) {
                let j = choose|j: int| 0 <= j < before.len() && before[j] == u;
                assert(acc@[j] == u);
            }
        }
        let after = nats(acc@);
        assert forall|x: nat| after.contains(x) <==> (before.contains(x) || x == u) by {
            if before.contains(x) {
                let j = choose|j: int| 0 <= j < before.len() && before[j] == x;
                assert(after[j] == x);
            }
            if x == u {
                assert(after[before.len() as int] == x);
            }
            if after.contains(x) {
                let j = choose|j: int| 0 <= j < after.len() && after[j] == x;
                if j < before.len() {
                    assert(before[j] == x);
                }
            }
        }
    }
}

fn collect_param(p: &Parameter, acc: &mut Vec<usize>)
    ensures
        forall|x: nat| #[trigger] nats(final(acc)@).contains(x) <==> (nats(old(acc)@).contains(x) || has_universe_param(*p, x)),
        nats(old(acc)@).no_duplicates() ==> nats(final(acc)@).no_duplicates(),
    decreases p, 2nat,
{
    match p {
        ParameterKind::Ty(t) => {
            collect_ty(t, acc);
            assert forall|x: nat| has_universe_param(*p, x) == has_universe(*t, x) by {}
        },
        ParameterKind::Lifetime(Lifetime::ForAll(u)) => {
            note_universe(acc, u.counter);
            assert forall|x: nat| has_universe_param(*p, x) == (x == u.counter) by {}
        },
        ParameterKind::Lifetime(Lifetime::Var(_)) => {
            assert forall|x: nat| !has_universe_param(*p, x) by {}
        },
    }
}

fn collect_params(ps: &Vec<Parameter>, acc: &mut Vec<usize>)
    ensures
        forall|x: nat| #[trigger] nats(final(acc)@).contains(x) <==> (nats(old(acc)@).contains(x) || has_universe_params(ps@, x)),
        nats(old(acc)@).no_duplicates() ==> nats(final(acc)@).no_duplicates(),
    decreases ps, 0nat,
{
    proof {
        assert forall|x: nat| !has_universe_params(ps@.subrange(0, 0), x) by {}
    }
    let mut i: usize = 0;
    while i < ps.len()
        invariant
            i <= ps@.len(),
            forall|x: nat| #[trigger] nats(acc@).contains(x) <==> (nats(old(acc)@).contains(x) || has_universe_params(ps@.subrange(0, i as int), x)),
            nats(old(acc)@).no_duplicates() ==> nats(acc@).no_duplicates(),
        decreases ps@.len() - i,
    {
        proof {
            assert(decreases_to!(ps => ps[i as int]));
        }
        collect_param(&ps[i], acc);
        proof {
            let pre = ps@.subrange(0, i + 1);
            assert(pre.drop_last() =~= ps@.subrange(0, i as int));
            assert(pre.last() == ps@[i as int]);
            assert forall|x: nat| has_universe_params(pre, x) == (has_universe_params(ps@.subrange(0, i as int), x)
                || has_universe_param(ps@[i as int], x)) by {}
        }
        i = i + 1;
    }
    proof {
        assert(ps@.subrange(0, ps@.len() as int) =~= ps@);
        assert forall|x: nat| !has_universe_params(ps@.subrange(0, 0), x) by {}
    }
}

fn collect_ty(t: &Ty, acc: &mut Vec<usize>)
    ensures
        forall|x: nat| #[trigger] nats(final(acc)@).contains(x) <==> (nats(old(acc)@).contains(x) || has_universe(*t, x)),
        nats(old(acc)@).no_duplicates() ==> nats(final(acc)@).no_duplicates(),
    decreases t, 1nat,
{
    match t {
        Ty::Var(_) => {
            assert forall|x: nat| !has_universe(*t, x) by {}
        },
        Ty::Apply(a) => {
            if let TypeName::ForAll(u) = a.name {
                note_universe(acc, u.counter);
            }
            collect_params(&a.parameters, acc);
            assert forall|x: nat| has_universe(*t, x) == ((a.name matches TypeName::ForAll(y) && y.counter == x)
                || has_universe_params(a.parameters@, x)) by {}
        },
        Ty::Projection(p) => {
            collect_params(&p.parameters, acc);
            assert forall|x: nat| has_universe(*t, x) == has_universe_params(p.parameters@, x) by {}
        },
        Ty::ForAll(q) => {
            collect_ty(&q.ty, acc);
            assert forall|x: nat| has_universe(*t, x) == has_universe(q.ty, x) by {}
        },
    }
}

fn rank_exec(us: &Vec<usize>, u: usize) -> (r: usize)
    requires
        us@.len() < usize::MAX,
    ensures
        r == rank(nats(us@), u as nat),
{
    if u == 0 {
        return 0;
    }
    let mut r: usize = 1;
    let mut i: usize = 0;
    while i < us.len()
        invariant
            i <= us@.len(),
            us@.len() < usize::MAX,
            u > 0,
            r <= i + 1,
            r == rank(nats(us@.subrange(0, i as int)), u as nat),
        decreases us@.len() - i,
    {
        proof {
            let pre = us@.subrange(0, i + 1);
            assert(nats(pre).drop_last() =~= nats(us@.subrange(0, i as int)));
        }
        if 0 < us[i] && us[i] < u {
            r = r + 1;
        }
        i = i + 1;
    }
    proof {
        assert(us@.subrange(0, us@.len() as int) =~= us@);
    }
    r
}

fn renumber_param(p: &Parameter, us: &Vec<usize>) -> (r: Parameter)
    requires
        us@.len() < usize::MAX,
    ensures
        renumbered_param(*p, r, nats(us@)),
    decreases p, 2nat,
{
    match p {
        ParameterKind::Ty(t) => ParameterKind::Ty(renumber_ty(t, us)),
        ParameterKind::Lifetime(Lifetime::ForAll(x)) => ParameterKind::Lifetime(
            Lifetime::ForAll(UniverseIndex { counter: rank_exec(us, x.counter) }),
        ),
        ParameterKind::Lifetime(Lifetime::Var(d)) => ParameterKind::Lifetime(Lifetime::Var(*d)),
    }
}

fn renumber_params(ps: &Vec<Parameter>, us: &Vec<usize>) -> (r: Vec<Parameter>)
    requires
        us@.len() < usize::MAX,
    ensures
        renumbered_params(ps@, r@, nats(us@)),
    decreases ps, 0nat,
{
    let mut out: Vec<Parameter> = Vec::new();
    let mut i: usize = 0;
    while i < ps.len()
        invariant
            i <= ps@.len(),
            us@.len() < usize::MAX,
            renumbered_params(ps@.subrange(0, i as int), out@, nats(us@)),
        decreases ps@.len() - i,
    {
        proof {
            assert(decreases_to!(ps => ps[i as int]));
        }
        let q = renumber_param(&ps[i], us);
        let ghost prev = out@;
        out.push(q);
        proof {
            let pre = ps@.subrange(0, i + 1);
            assert(pre.drop_last() =~= ps@.subrange(0, i as int));
            assert(out@.drop_last() =~= prev);
        }
        i = i + 1;
    }
    proof {
        assert(ps@.subrange(0, ps@.len() as int) =~= ps@);
    }
    out
}

fn renumber_ty(t: &Ty, us: &Vec<usize>) -> (r: Ty)
    requires
        us@.len() < usize::MAX,
    ensures
        renumbered(*t, r, nats(us@)),
    decreases t, 1nat,
{
    match t {
        Ty::Var(d) => Ty::Var(*d),
        Ty::Apply(a) => {
            let name = match a.name {
                TypeName::ForAll(x) => TypeName::ForAll(UniverseIndex { counter: rank_exec(us, x.counter) }),
                other => other,
            };
            Ty::Apply(ApplicationTy { name, parameters: renumber_params(&a.parameters, us) })
        },
        Ty::Projection(p) => Ty::Projection(
            ProjectionTy { associated_ty_id: p.associated_ty_id, parameters: renumber_params(&p.parameters, us) },
        ),
        Ty::ForAll(q) => Ty::ForAll(Box::new(QuantifiedTy { num_binders: q.num_binders, ty: renumber_ty(&q.ty, us) })),
    }
}

fn copy_kinds(ks: &Vec<ParameterKind<(), ()>>) -> (r: Vec<ParameterKind<(), ()>>)
    ensures
        r@ == ks@,
{
    let mut out: Vec<ParameterKind<(), ()>> = Vec::new();
    let mut i: usize = 0;
    while i < ks.len()
        invariant
            i <= ks@.len(),
            out@ == ks@.subrange(0, i as int),
        decreases ks@.len() - i,
    {
        out.push(ks[i]);
        proof {
            assert(out@ =~= ks@.subrange(0, i + 1));
        }
        i = i + 1;
    }
    proof {
        assert(ks@.subrange(0, ks@.len() as int) =~= ks@);
    }
    out
}

/// Renumbers the placeholder universes of a canonical value densely and in
/// order: the root stays 0, the other universes that occur become 1, 2, ...
/// by size. The count is that of the universes so renumbered, the root
/// included. `None` when the value holds `usize::MAX` universes.
pub fn u_canonicalize(value: &Canonical<Ty>) -> (r: Option<UCanonical<Ty>>)
    ensures
        r matches Some(uc) ==> exists|us: Seq<nat>| {
            &&& us.no_duplicates()
            &&& (forall|x: nat| #[trigger] us.contains(x) <==> has_universe(value.value, x))
            &&& renumbered(value.value, uc.canonical.value, us)
            &&& uc.universes == count_non_root(us) + 1
            &&& uc.canonical.binders@ == value.binders@
        },
        r is None ==> exists|us: Seq<nat>| {
            &&& us.no_duplicates()
            &&& (forall|x: nat| #[trigger] us.contains(x) <==> has_universe(value.value, x))
            &&& us.len() >= usize::MAX
        },
{
    let mut us: Vec<usize> = Vec::new();
    proof {
        assert(nats(us@).no_duplicates());
        assert forall|x: nat| !nats(us@).contains(x) by {}
    }
    collect_ty(&value.value, &mut us);
    if us.len() == usize::MAX {
        return None;
    }
    let mut count: usize = 1;
    let mut i: usize = 0;
    while i < us.len()
        invariant
            i <= us@.len(),
            us@.len() < usize::MAX,
            count <= i + 1,
            count == count_non_root(nats(us@.subrange(0, i as int))) + 1,
        decreases us@.len() - i,
    {
        proof {
            let pre = us@.subrange(0, i + 1);
            assert(nats(pre).drop_last() =~= nats(us@.subrange(0, i as int)));
        }
        if us[i] > 0 {
            count = count + 1;
        }
        i = i + 1;
    }
    proof {
        assert(us@.subrange(0, us@.len() as int) =~= us@);
    }
    let body = renumber_ty(&value.value, &us);
    let binders = copy_kinds(&value.binders);
    Some(UCanonical { canonical: Canonical { value: body, binders }, universes: count })
}

} // verus!

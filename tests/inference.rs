use chalk_infer::infer::InferenceTable;
use chalk_infer::ir::{
    shift_ty, ApplicationTy, Canonical, ItemId, Lifetime, ParameterKind, Substitution, Ty,
    TypeName, UCanonical, UniverseIndex, Angle,
};
use chalk_infer::ucanonicalize::u_canonicalize;
use chalk_infer::unify::NoSolution;
use chalk_infer::var::{InferenceVariable, ParameterInferenceVariable};

fn apply(id: usize, params: Vec<ParameterKind<Ty, Lifetime>>) -> Ty {
    Ty::Apply(ApplicationTy { name: TypeName::ItemId(ItemId { index: id }), parameters: params })
}

fn var_ty(v: InferenceVariable) -> ParameterKind<Ty, Lifetime> {
    ParameterKind::Ty(v.to_ty())
}

fn apply_id(t: &Ty) -> Option<usize> {
    match t {
        Ty::Apply(a) => match a.name {
            TypeName::ItemId(id) => Some(id.index),
            _ => None,
        },
        _ => None,
    }
}

#[test]
fn unify_two_variables_inside_application() {
    let mut t = InferenceTable::new();
    let a = t.new_variable(UniverseIndex::root());
    let b = t.new_variable(UniverseIndex::root());
    let fa = apply(0, vec![var_ty(a)]);
    let fb = apply(0, vec![var_ty(b)]);
    let r = t.unify(&fa, &fb).expect("unifies");
    assert!(r.constraints.is_empty());
    assert!(!t.var_is_bound(a));
    assert!(!t.var_is_bound(b));
    // the two are now one class: binding one binds the other
    t.unify(&a.to_ty(), &apply(7, vec![])).expect("binds");
    assert!(t.var_is_bound(b));
    assert_eq!(t.probe_ty_var(b).as_ref().and_then(apply_id), Some(7));
}

#[test]
fn unify_mismatched_names_fails_and_changes_nothing() {
    let mut t = InferenceTable::new();
    let a = t.new_variable(UniverseIndex::root());
    let x = apply(0, vec![var_ty(a), ParameterKind::Ty(apply(1, vec![]))]);
    let y = apply(0, vec![ParameterKind::Ty(apply(2, vec![])), ParameterKind::Ty(apply(3, vec![]))]);
    assert_eq!(t.unify(&x, &y).err(), Some(NoSolution));
    // the binding of `a` made before the mismatch was undone
    assert!(!t.var_is_bound(a));
}

#[test]
fn occurs_check_rejects_self_reference() {
    let mut t = InferenceTable::new();
    let a = t.new_variable(UniverseIndex::root());
    let b = t.new_variable(UniverseIndex::root());
    // b := Box<a>, then a = Vec<b> would make a contain itself
    t.unify(&b.to_ty(), &apply(1, vec![var_ty(a)])).expect("binds b");
    assert_eq!(t.unify(&a.to_ty(), &apply(2, vec![var_ty(b)])).err(), Some(NoSolution));
    assert!(!t.var_is_bound(a));
    assert_eq!(t.unify_var_ty(a, &apply(2, vec![var_ty(a)])), Err(NoSolution));
}

#[test]
fn universe_visibility_rejects_later_placeholder() {
    let mut t = InferenceTable::new();
    let a = t.new_variable(UniverseIndex::root());
    let u1 = t.new_universe();
    let placeholder = Ty::Apply(ApplicationTy { name: TypeName::ForAll(u1), parameters: vec![] });
    assert_eq!(t.unify(&a.to_ty(), &placeholder).err(), Some(NoSolution));
    let c = t.new_variable(u1);
    assert!(t.unify(&c.to_ty(), &placeholder).is_ok());
    assert!(t.var_is_bound(c));
}

#[test]
fn lifetimes_that_differ_become_constraints() {
    let mut t = InferenceTable::new();
    let u1 = t.new_universe();
    let u2 = t.new_universe();
    let x = apply(0, vec![ParameterKind::Lifetime(Lifetime::ForAll(u1))]);
    let y = apply(0, vec![ParameterKind::Lifetime(Lifetime::ForAll(u2))]);
    let r = t.unify(&x, &y).expect("unifies");
    assert_eq!(r.constraints, vec![(Lifetime::ForAll(u1), Lifetime::ForAll(u2))]);
    let l = t.new_variable(u2);
    let z = apply(0, vec![ParameterKind::Lifetime(l.to_lifetime())]);
    let r = t.unify(&z, &x).expect("unifies");
    assert!(r.constraints.is_empty());
    assert_eq!(t.probe_lifetime_var(l), Some(Lifetime::ForAll(u1)));
    assert_eq!(t.normalize_lifetime(&l.to_lifetime()), Some(Lifetime::ForAll(u1)));
}

#[test]
fn normalize_shallow_unbound_and_bound() {
    let mut t = InferenceTable::new();
    let v = t.new_variable(UniverseIndex::root());
    // Var(2) under two binders is the free variable 0
    assert!(t.normalize_shallow(&Ty::Var(2), 2).is_none());
    t.unify(&v.to_ty(), &apply(5, vec![])).expect("binds");
    let n = t.normalize_shallow(&Ty::Var(2), 2).expect("bound");
    assert_eq!(apply_id(&n), Some(5));
    // a variable bound by the enclosing binders is left alone
    assert!(t.normalize_shallow(&Ty::Var(1), 2).is_none());
    assert!(t.normalize_shallow(&apply(5, vec![]), 0).is_none());
}

#[test]
fn normalize_shallow_shifts_free_variables() {
    let mut t = InferenceTable::new();
    let v = t.new_variable(UniverseIndex::root());
    let w = t.new_variable(UniverseIndex::root());
    t.unify(&v.to_ty(), &apply(3, vec![var_ty(w)])).expect("binds");
    let n = t.normalize_shallow(&Ty::Var(2), 2).expect("bound");
    match n {
        Ty::Apply(a) => match &a.parameters[0] {
            ParameterKind::Ty(Ty::Var(d)) => assert_eq!(*d, 3),
            _ => panic!("expected a variable"),
        },
        _ => panic!("expected an application"),
    }
}

#[test]
fn shift_moves_only_free_depths() {
    let inner = Ty::ForAll(Box::new(chalk_infer::ir::QuantifiedTy {
        num_binders: 1,
        ty: apply(0, vec![ParameterKind::Ty(Ty::Var(0)), ParameterKind::Ty(Ty::Var(1))]),
    }));
    let s = shift_ty(&inner, 4, 0).expect("fits");
    match s {
        Ty::ForAll(q) => match q.ty {
            Ty::Apply(a) => {
                assert!(matches!(a.parameters[0], ParameterKind::Ty(Ty::Var(0))));
                assert!(matches!(a.parameters[1], ParameterKind::Ty(Ty::Var(5))));
            },
            _ => panic!("expected an application"),
        },
        _ => panic!("expected a quantified type"),
    }
    assert!(shift_ty(&Ty::Var(usize::MAX), 1, 0).is_none());
}

#[test]
fn snapshot_rollback_restores_state() {
    let mut t = InferenceTable::new();
    let a = t.new_variable(UniverseIndex::root());
    let snap = t.snapshot();
    let u = t.new_universe();
    let b = t.new_variable(u);
    t.unify(&a.to_ty(), &apply(1, vec![])).expect("binds");
    assert_eq!(t.num_vars(), 2);
    assert!(t.var_is_bound(a));
    t.rollback_to(snap);
    assert_eq!(t.num_vars(), 1);
    assert!(!t.var_is_bound(a));
    assert_eq!(t.max_universe(), UniverseIndex::root());
    assert_eq!(b.index, 1);
}

#[test]
fn snapshot_commit_keeps_changes() {
    let mut t = InferenceTable::new();
    let a = t.new_variable(UniverseIndex::root());
    let outer = t.snapshot();
    let inner = t.snapshot();
    t.unify(&a.to_ty(), &apply(1, vec![])).expect("binds");
    t.commit(inner);
    assert!(t.var_is_bound(a));
    t.rollback_to(outer);
    assert!(!t.var_is_bound(a));
}

#[test]
fn commit_if_ok_keeps_success_and_undoes_failure() {
    let mut t = InferenceTable::new();
    let a = t.new_variable(UniverseIndex::root());
    let r: Result<u32, &str> = t.commit_if_ok(|mut tab: InferenceTable| {
        let _ = tab.unify(&a.to_ty(), &apply(1, vec![]));
        (tab, Ok(5))
    });
    assert_eq!(r, Ok(5));
    assert!(t.var_is_bound(a));
    let b = t.new_variable(UniverseIndex::root());
    let r: Result<u32, &str> = t.commit_if_ok(|mut tab: InferenceTable| {
        let _ = tab.new_variable(UniverseIndex::root());
        let _ = tab.unify(&b.to_ty(), &apply(2, vec![]));
        (tab, Err("no"))
    });
    assert_eq!(r, Err("no"));
    assert!(!t.var_is_bound(b));
    assert_eq!(t.num_vars(), 2);
}

#[test]
fn new_universe_is_strictly_greater() {
    let mut t = InferenceTable::new();
    assert_eq!(t.max_universe().counter, 0);
    let u1 = t.new_universe();
    let u2 = t.new_universe();
    assert_eq!(u1.counter, 1);
    assert_eq!(u2.counter, 2);
    assert_eq!(t.max_universe(), u2);
    assert!(u2.can_see(u1));
    assert!(!u1.can_see(u2));
}

#[test]
fn instantiate_universes_adds_all_but_root() {
    let mut t = InferenceTable::new();
    let value = UCanonical { canonical: Canonical { value: 9u32, binders: vec![] }, universes: 3 };
    let c = t.instantiate_universes(&value);
    assert_eq!(c.value, 9);
    assert_eq!(t.max_universe().counter, 2);
}

#[test]
fn universe_of_unbound_variable() {
    let mut t = InferenceTable::new();
    let u = t.new_universe();
    let v = t.new_variable(u);
    assert_eq!(t.universe_of_unbound_var(v), u);
    assert!(t.probe_ty_var(v).is_none());
}

#[test]
fn trivial_substitution_checks_bindings() {
    let mut t = InferenceTable::new();
    let a = t.new_variable(UniverseIndex::root());
    let b = t.new_variable(UniverseIndex::root());
    let subst = Substitution { parameters: vec![var_ty(a), ParameterKind::Lifetime(b.to_lifetime())] };
    assert!(subst.is_trivial_within(&mut t));
    t.unify(&a.to_ty(), &apply(1, vec![])).expect("binds");
    assert!(!subst.is_trivial_within(&mut t));
}

#[test]
fn variable_accessors() {
    assert_eq!(Ty::Var(4).var(), Some(4));
    assert_eq!(apply(0, vec![]).var(), None);
    assert_eq!(Ty::Var(4).inference_var(), Some(InferenceVariable { index: 4 }));
    assert_eq!(Lifetime::Var(2).var(), Some(2));
    assert_eq!(Lifetime::ForAll(UniverseIndex::root()).inference_var(), None);
    let p: ParameterInferenceVariable = ParameterKind::Lifetime(InferenceVariable { index: 3 });
    assert!(matches!(p.to_parameter(), ParameterKind::Lifetime(Lifetime::Var(3))));
    let q: ParameterInferenceVariable = ParameterKind::Ty(InferenceVariable { index: 1 });
    assert!(matches!(q.to_parameter(), ParameterKind::Ty(Ty::Var(1))));
}

#[test]
fn angle_counts_items() {
    let items = [1u8, 2, 3];
    assert_eq!(Angle(&items).len(), 3);
    assert!(Angle::<u8>(&[]).is_empty());
}

#[test]
fn canonicalize_lists_variables_in_first_occurrence_order() {
    let mut t = InferenceTable::new();
    let a = t.new_variable(UniverseIndex::root());
    let b = t.new_variable(UniverseIndex::root());
    let term = apply(0, vec![var_ty(a), var_ty(b), var_ty(a)]);
    let c = t.canonicalize(&term).expect("canonicalizes");
    assert_eq!(c.quantified.binders, vec![ParameterKind::Ty(()), ParameterKind::Ty(())]);
    assert_eq!(c.free_vars, vec![ParameterKind::Ty(a), ParameterKind::Ty(b)]);
    match &c.quantified.value {
        Ty::Apply(app) => {
            let depths: Vec<usize> = app
                .parameters
                .iter()
                .map(|p| match p {
                    ParameterKind::Ty(Ty::Var(d)) => *d,
                    _ => usize::MAX,
                })
                .collect();
            assert_eq!(depths, vec![0, 1, 0]);
        },
        _ => panic!("expected an application"),
    }
}

#[test]
fn canonicalize_resolves_bound_variables_and_keeps_bound_depths() {
    let mut t = InferenceTable::new();
    let a = t.new_variable(UniverseIndex::root());
    let b = t.new_variable(UniverseIndex::root());
    t.unify(&a.to_ty(), &apply(4, vec![var_ty(b)])).expect("binds");
    let l = t.new_variable(UniverseIndex::root());
    // for<1> Foo<^0, ?a, '?l> : ?a is bound, ?b and ?l are free
    let term = Ty::ForAll(Box::new(chalk_infer::ir::QuantifiedTy {
        num_binders: 1,
        ty: apply(
            0,
            vec![
                ParameterKind::Ty(Ty::Var(0)),
                ParameterKind::Ty(Ty::Var(1 + a.index as usize)),
                ParameterKind::Lifetime(Lifetime::Var(1 + l.index as usize)),
            ],
        ),
    }));
    let c = t.canonicalize(&term).expect("canonicalizes");
    assert_eq!(c.free_vars, vec![ParameterKind::Ty(b), ParameterKind::Lifetime(l)]);
    assert_eq!(c.quantified.binders, vec![ParameterKind::Ty(()), ParameterKind::Lifetime(())]);
    match &c.quantified.value {
        Ty::ForAll(q) => match &q.ty {
            Ty::Apply(app) => {
                assert!(matches!(app.parameters[0], ParameterKind::Ty(Ty::Var(0))));
                match &app.parameters[1] {
                    ParameterKind::Ty(inner) => match inner {
                        Ty::Apply(x) => {
                            assert!(matches!(x.parameters[0], ParameterKind::Ty(Ty::Var(1))));
                        },
                        _ => panic!("expected the value of ?a"),
                    },
                    _ => panic!("expected a type"),
                }
                assert!(matches!(app.parameters[2], ParameterKind::Lifetime(Lifetime::Var(2))));
            },
            _ => panic!("expected an application"),
        },
        _ => panic!("expected a quantified type"),
    }
}

#[test]
fn canonicalize_after_instantiate_gives_back_the_binders() {
    let mut t = InferenceTable::new();
    let _existing = t.new_variable(UniverseIndex::root());
    let canonical = Canonical {
        value: apply(0, vec![ParameterKind::Ty(Ty::Var(0)), ParameterKind::Ty(Ty::Var(1)), ParameterKind::Ty(Ty::Var(0))]),
        binders: vec![ParameterKind::Ty(()), ParameterKind::Ty(())],
    };
    let live = t.instantiate(UniverseIndex::root(), &canonical).expect("fits");
    assert_eq!(t.num_vars(), 3);
    match &live {
        Ty::Apply(app) => {
            assert!(matches!(app.parameters[0], ParameterKind::Ty(Ty::Var(1))));
            assert!(matches!(app.parameters[1], ParameterKind::Ty(Ty::Var(2))));
        },
        _ => panic!("expected an application"),
    }
    let again = t.canonicalize(&live).expect("canonicalizes");
    assert_eq!(again.quantified.binders, canonical.binders);
    match &again.quantified.value {
        Ty::Apply(app) => {
            assert!(matches!(app.parameters[0], ParameterKind::Ty(Ty::Var(0))));
            assert!(matches!(app.parameters[1], ParameterKind::Ty(Ty::Var(1))));
            assert!(matches!(app.parameters[2], ParameterKind::Ty(Ty::Var(0))));
        },
        _ => panic!("expected an application"),
    }
}

#[test]
fn canonicalize_closed_term_has_no_binders() {
    let mut t = InferenceTable::new();
    let c = t.canonicalize(&apply(3, vec![])).expect("canonicalizes");
    assert!(c.quantified.binders.is_empty());
    assert!(c.free_vars.is_empty());
}

#[test]
fn invert_replaces_free_variables_with_fresh_placeholders() {
    let mut t = InferenceTable::new();
    let a = t.new_variable(UniverseIndex::root());
    let l = t.new_variable(UniverseIndex::root());
    let term = apply(0, vec![var_ty(a), ParameterKind::Lifetime(l.to_lifetime()), var_ty(a)]);
    let inv = t.invert(&term).expect("inverts");
    assert_eq!(t.max_universe().counter, 2);
    assert_eq!(
        inv.placeholders,
        vec![
            (UniverseIndex { counter: 1 }, ParameterKind::Ty(a)),
            (UniverseIndex { counter: 2 }, ParameterKind::Lifetime(l)),
        ]
    );
    match &inv.value {
        Ty::Apply(app) => {
            for (i, want) in [1usize, 2, 1].iter().enumerate() {
                match &app.parameters[i] {
                    ParameterKind::Ty(Ty::Apply(p)) => {
                        assert_eq!(p.name, TypeName::ForAll(UniverseIndex { counter: *want }));
                        assert!(p.parameters.is_empty());
                    },
                    ParameterKind::Lifetime(lt) => {
                        assert_eq!(*lt, Lifetime::ForAll(UniverseIndex { counter: *want }));
                    },
                    _ => panic!("expected a placeholder"),
                }
            }
        },
        _ => panic!("expected an application"),
    }
    // the variables themselves are untouched
    assert!(!t.var_is_bound(a));
}

#[test]
fn normalize_deep_resolves_chains_of_bindings() {
    let mut t = InferenceTable::new();
    let a = t.new_variable(UniverseIndex::root());
    let b = t.new_variable(UniverseIndex::root());
    let c = t.new_variable(UniverseIndex::root());
    t.unify(&a.to_ty(), &apply(1, vec![var_ty(b)])).expect("binds a");
    t.unify(&b.to_ty(), &apply(2, vec![var_ty(c)])).expect("binds b");
    // under one binder, ?a is depth 1 and ?c must come out as depth 3
    let term = Ty::ForAll(Box::new(chalk_infer::ir::QuantifiedTy {
        num_binders: 1,
        ty: apply(0, vec![ParameterKind::Ty(Ty::Var(0)), ParameterKind::Ty(Ty::Var(1))]),
    }));
    let n = t.normalize_deep(&term, 0).expect("resolves");
    assert_eq!(chalk_infer::render::render_ty(&n), "for<1> ItemId { index: 0 }<?0, ItemId { index: 1 }<ItemId { index: 2 }<?3>>>");
}

#[test]
fn u_canonicalize_renumbers_universes_densely() {
    let u = |c: usize| UniverseIndex { counter: c };
    let value = Canonical {
        value: Ty::Apply(ApplicationTy {
            name: TypeName::ForAll(u(7)),
            parameters: vec![
                ParameterKind::Lifetime(Lifetime::ForAll(u(3))),
                ParameterKind::Ty(Ty::Apply(ApplicationTy { name: TypeName::ForAll(u(0)), parameters: vec![] })),
                ParameterKind::Lifetime(Lifetime::ForAll(u(7))),
                ParameterKind::Ty(Ty::Var(0)),
            ],
        }),
        binders: vec![ParameterKind::Ty(())],
    };
    let uc = u_canonicalize(&value).expect("fits");
    assert_eq!(uc.universes, 3);
    assert_eq!(uc.canonical.binders, vec![ParameterKind::Ty(())]);
    assert_eq!(chalk_infer::render::render_ty(&uc.canonical.value), "!2<'!1, !0, '!2, ?0>");
    let none = Canonical { value: apply(1, vec![]), binders: vec![] };
    assert_eq!(u_canonicalize(&none).expect("fits").universes, 1);
}

#[test]
fn occurs_check_with_variable_on_the_right() {
    let mut t = InferenceTable::new();
    let a = t.new_variable(UniverseIndex::root());
    assert_eq!(t.unify(&apply(2, vec![var_ty(a)]), &a.to_ty()).err(), Some(NoSolution));
    assert!(!t.var_is_bound(a));
    let u1 = t.new_universe();
    let placeholder = Ty::Apply(ApplicationTy { name: TypeName::ForAll(u1), parameters: vec![] });
    assert_eq!(t.unify(&placeholder, &a.to_ty()).err(), Some(NoSolution));
    assert!(t.unify(&apply(3, vec![]), &a.to_ty()).is_ok());
    assert_eq!(t.probe_ty_var(a).as_ref().and_then(apply_id), Some(3));
}

#[test]
fn unify_same_name_different_arity_fails() {
    let mut t = InferenceTable::new();
    let a = t.new_variable(UniverseIndex::root());
    let x = apply(0, vec![var_ty(a)]);
    let y = apply(0, vec![ParameterKind::Ty(apply(1, vec![])), ParameterKind::Ty(apply(1, vec![]))]);
    assert_eq!(t.unify(&x, &y).err(), Some(NoSolution));
    assert!(!t.var_is_bound(a));
}

#[test]
fn duplicate_copies_an_idle_table() {
    let mut t = InferenceTable::new();
    let a = t.new_variable(UniverseIndex::root());
    t.unify(&a.to_ty(), &apply(1, vec![])).expect("binds");
    let mut d = t.duplicate();
    assert!(d.var_is_bound(a));
    let b = d.new_variable(UniverseIndex::root());
    assert_eq!(b.index, 1);
    assert_eq!(t.num_vars(), 1);
}

#[test]
fn canonicalize_follows_first_occurrence_not_index() {
    let mut t = InferenceTable::new();
    let a = t.new_variable(UniverseIndex::root());
    let b = t.new_variable(UniverseIndex::root());
    let c = t.canonicalize(&apply(0, vec![var_ty(b), var_ty(a), var_ty(b)])).expect("canonicalizes");
    assert_eq!(c.free_vars, vec![ParameterKind::Ty(b), ParameterKind::Ty(a)]);
}

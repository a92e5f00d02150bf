use chalk_infer::ir::{
    Angle, ApplicationTy, ItemId, Lifetime, ParameterKind, ProjectionTy, QuantifiedTy, Ty, TypeName,
    UniverseIndex,
};
use chalk_infer::ir::{Environment, InEnvironment, UnselectedNormalize, UnselectedProjectionTy};
use chalk_infer::render::render_ty;

fn item(i: usize) -> TypeName {
    TypeName::ItemId(ItemId { index: i })
}

#[test]
fn renders_variables_and_placeholders() {
    assert_eq!(render_ty(&Ty::Var(12)), "?12");
    assert_eq!(Lifetime::Var(0).render(), "'?0");
    assert_eq!(Lifetime::ForAll(UniverseIndex { counter: 3 }).render(), "'!3");
    assert_eq!(UniverseIndex { counter: 10 }.render(), "U10");
    assert_eq!(TypeName::ForAll(UniverseIndex { counter: 2 }).render(), "!2");
}

#[test]
fn renders_applications_with_angle_brackets() {
    let t = Ty::Apply(ApplicationTy {
        name: item(7),
        parameters: vec![
            ParameterKind::Ty(Ty::Var(0)),
            ParameterKind::Lifetime(Lifetime::ForAll(UniverseIndex { counter: 1 })),
        ],
    });
    assert_eq!(render_ty(&t), "ItemId { index: 7 }<?0, '!1>");
    let bare = Ty::Apply(ApplicationTy { name: item(105), parameters: vec![] });
    assert_eq!(render_ty(&bare), "ItemId { index: 105 }");
}

#[test]
fn renders_projections_and_quantified_types() {
    let p = Ty::Projection(ProjectionTy {
        associated_ty_id: ItemId { index: 4 },
        parameters: vec![ParameterKind::Ty(Ty::Var(1))],
    });
    assert_eq!(render_ty(&p), "(ItemId { index: 4 })<?1>");
    let q = Ty::ForAll(Box::new(QuantifiedTy { num_binders: 2, ty: Ty::Var(0) }));
    assert_eq!(render_ty(&q), "for<2> ?0");
}

#[test]
fn renders_angle_lists() {
    let items = vec![ParameterKind::Ty(Ty::Var(3)), ParameterKind::Lifetime(Lifetime::Var(4))];
    assert_eq!(Angle(&items[..]).render(), "<?3, '?4>");
    let none: Vec<ParameterKind<Ty, Lifetime>> = vec![];
    assert_eq!(Angle(&none[..]).render(), "");
}

use chalk_infer::ir::{
    Binders, DomainGoal, EqGoal, Goal, LeafGoal, Normalize, QuantifierKind, TraitRef, WellFormed,
};

fn trait_ref(params: Vec<ParameterKind<Ty, Lifetime>>) -> TraitRef {
    TraitRef { trait_id: ItemId { index: 9 }, parameters: params }
}

#[test]
fn renders_domain_goals() {
    let implemented = DomainGoal::Implemented(trait_ref(vec![
        ParameterKind::Ty(Ty::Var(0)),
        ParameterKind::Ty(Ty::Var(1)),
    ]));
    assert_eq!(implemented.render(), "?0: ItemId { index: 9 }<?1>");
    let wf = DomainGoal::WellFormed(WellFormed::TraitRef(trait_ref(vec![ParameterKind::Ty(Ty::Var(2))])));
    assert_eq!(wf.render(), "WellFormed(?2 as ItemId { index: 9 })");
    let norm = DomainGoal::Normalize(Normalize {
        projection: ProjectionTy { associated_ty_id: ItemId { index: 1 }, parameters: vec![] },
        ty: Ty::Var(5),
    });
    assert_eq!(norm.render(), "(ItemId { index: 1 }) ==> ?5");
    assert_eq!(DomainGoal::InScope(ItemId { index: 3 }).render(), "InScope(ItemId { index: 3 })");
}

#[test]
fn renders_goal_algebra() {
    let eq = Goal::Leaf(LeafGoal::EqGoal(EqGoal {
        a: ParameterKind::Ty(Ty::Var(0)),
        b: ParameterKind::Lifetime(Lifetime::Var(1)),
    }));
    assert_eq!(eq.render(), "(?0 = '?1)");
    let q = Goal::Quantified(
        QuantifierKind::ForAll,
        Box::new(Binders {
            binders: vec![ParameterKind::Ty(()), ParameterKind::Lifetime(())],
            value: Goal::Not(Box::new(Goal::CannotProve)),
        }),
    );
    assert_eq!(q.render(), "ForAll<type, lifetime> { not { ¯\\_(ツ)_/¯ } }");
    let both = Goal::And(Box::new(Goal::CannotProve), Box::new(Goal::CannotProve));
    assert_eq!(both.render(), "(¯\\_(ツ)_/¯, ¯\\_(ツ)_/¯)");
    let imp = Goal::Implies(vec![DomainGoal::InScope(ItemId { index: 0 })], Box::new(Goal::CannotProve));
    assert_eq!(imp.render(), "if ([InScope(ItemId { index: 0 })]) { ¯\\_(ツ)_/¯ }");
    let b = Binders { binders: vec![ParameterKind::Ty(())], value: 0u8 };
    assert_eq!(b.render_prefix(), "for<type> ");
    let none: Binders<u8> = Binders { binders: vec![], value: 0 };
    assert_eq!(none.render_prefix(), "");
}

#[test]
fn renders_unselected_normalize_and_holds_environments() {
    let g = DomainGoal::UnselectedNormalize(UnselectedNormalize {
        projection: UnselectedProjectionTy {
            assoc_name: String::from("Item"),
            parameters: vec![ParameterKind::Ty(Ty::Var(0)), ParameterKind::Ty(Ty::Var(1))],
        },
        ty: Ty::Var(2),
    });
    assert_eq!(g.render(), "?0::Item<?1> ==> ?2");
    let env = InEnvironment { environment: Environment { clauses: vec![g] }, goal: Goal::CannotProve };
    assert_eq!(env.environment.clauses.len(), 1);
}

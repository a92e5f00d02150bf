use vstd::prelude::*;
use vstd::string::StringExecFns;
use crate::ir::{
    Angle, Binders, DomainGoal, EqGoal, Goal, ItemId, LeafGoal, Lifetime, Normalize, Parameter, ParameterKind,
    ProjectionTy, QuantifierKind, TraitRef, Ty, TypeName, UniverseIndex, WellFormed,
};

verus! {

broadcast use vstd::std_specs::vec::group_vec_axioms;

/// The decimal digit for `d < 10`.
pub open spec fn digit_char(d: nat) -> char {
    if d == 0 { '0' } else if d == 1 { '1' } else if d == 2 { '2' } else if d == 3 { '3' } else if d == 4 {
        '4'
    } else if d == 5 { '5' } else if d == 6 { '6' } else if d == 7 { '7' } else if d == 8 { '8' } else { '9' }
}

/// `n` written in decimal.
pub open spec fn digits(n: nat) -> Seq<char>
    decreases n,
{
    if n < 10 {
        seq![digit_char(n)]
    } else {
        digits(n / 10).push(digit_char(n % 10))
    }
}

pub open spec fn universe_text(u: UniverseIndex) -> Seq<char> {
    seq!['U'] + digits(u.counter as nat)
}

/// An item identifier, rendered without a name registry.
pub open spec fn item_text(id: ItemId) -> Seq<char> {
    "ItemId { index: "@ + digits(id.index as nat) + " }"@
}

pub open spec fn name_text(n: TypeName) -> Seq<char> {
    match n {
        TypeName::ItemId(id) => item_text(id),
        TypeName::ForAll(u) => seq!['!'] + digits(u.counter as nat),
        TypeName::AssociatedType(id) => item_text(id),
    }
}

pub open spec fn lifetime_text(l: Lifetime) -> Seq<char> {
    match l {
        Lifetime::Var(d) => seq!['\'', '?'] + digits(d as nat),
        Lifetime::ForAll(u) => seq!['\'', '!'] + digits(u.counter as nat),
    }
}

pub open spec fn ty_text(t: Ty) -> Seq<char>
    decreases t, 2nat,
{
    match t {
        Ty::Var(d) => seq!['?'] + digits(d as nat),
        Ty::Apply(a) => name_text(a.name) + angle_text(a.parameters@),
        Ty::Projection(p) => seq!['('] + item_text(p.associated_ty_id) + seq![')'] + angle_text(p.parameters@),
        Ty::ForAll(q) => "for<"@ + digits(q.num_binders as nat) + "> "@ + ty_text(q.ty),
    }
}

pub open spec fn param_text(p: Parameter) -> Seq<char>
    decreases p, 3nat,
{
    match p {
        ParameterKind::Ty(t) => ty_text(t),
        ParameterKind::Lifetime(l) => lifetime_text(l),
    }
}

/// The items separated by `", "`.
pub open spec fn list_text(ps: Seq<Parameter>) -> Seq<char>
    decreases ps, 0nat,
{
    if ps.len() == 0 {
        Seq::empty()
    } else if ps.len() == 1 {
        param_text(ps[0])
    } else {
        list_text(ps.drop_last()) + ", "@ + param_text(ps.last())
    }
}

/// Nothing for no items, else the items between angle brackets.
pub open spec fn angle_text(ps: Seq<Parameter>) -> Seq<char>
    decreases ps, 1nat,
{
    if ps.len() == 0 {
        Seq::empty()
    } else {
        seq!['<'] + list_text(ps) + seq!['>']
    }
}

fn digit_str(d: usize) -> (r: &'static str)
    requires
        d < 10,
    ensures
        r@ == seq![digit_char(d as nat)],
{
    if d == 0 {
        proof { reveal_strlit("0"); }
        "0"
    } else if d == 1 {
        proof { reveal_strlit("1"); }
        "1"
    } else if d == 2 {
        proof { reveal_strlit("2"); }
        "2"
    } else if d == 3 {
        proof { reveal_strlit("3"); }
        "3"
    } else if d == 4 {
        proof { reveal_strlit("4"); }
        "4"
    } else if d == 5 {
        proof { reveal_strlit("5"); }
        "5"
    } else if d == 6 {
        proof { reveal_strlit("6"); }
        "6"
    } else if d == 7 {
        proof { reveal_strlit("7"); }
        "7"
    } else if d == 8 {
        proof { reveal_strlit("8"); }
        "8"
    } else {
        proof { reveal_strlit("9"); }
        "9"
    }
}

/// Appends `n` in decimal to `s`.
fn push_decimal(s: &mut String, n: usize)
    ensures
        final(s)@ == old(s)@ + digits(n as nat),
    decreases n,
{
    if n < 10 {
        s.append(digit_str(n));
    } else {
        push_decimal(s, n / 10);
        s.append(digit_str(n % 10));
        proof {
            assert(digits(n as nat) == digits((n / 10) as nat).push(digit_char((n % 10) as nat)));
        }
    }
}

impl UniverseIndex {
    /// `U` followed by the counter.
    pub fn render(&self) -> (r: String)
        ensures
            r@ == universe_text(*self),
    {
        let mut s = String::new();
        proof { reveal_strlit("U"); }
        s.append("U");
        push_decimal(&mut s, self.counter);
        s
    }
}

impl ItemId {
    pub fn render(&self) -> (r: String)
        ensures
            r@ == item_text(*self),
    {
        let mut s = String::new();
        s.append("ItemId { index: ");
        push_decimal(&mut s, self.index);
        s.append(" }");
        s
    }
}

impl TypeName {
    pub fn render(&self) -> (r: String)
        ensures
            r@ == name_text(*self),
    {
        match self {
            TypeName::ItemId(id) => id.render(),
            TypeName::ForAll(u) => {
                let mut s = String::new();
                proof { reveal_strlit("!"); }
                s.append("!");
                push_decimal(&mut s, u.counter);
                s
            },
            TypeName::AssociatedType(id) => id.render(),
        }
    }
}

impl Lifetime {
    pub fn render(&self) -> (r: String)
        ensures
            r@ == lifetime_text(*self),
    {
        let mut s = String::new();
        match self {
            Lifetime::Var(d) => {
                proof { reveal_strlit("'?"); }
                s.append("'?");
                push_decimal(&mut s, *d);
            },
            Lifetime::ForAll(u) => {
                proof { reveal_strlit("'!"); }
                s.append("'!");
                push_decimal(&mut s, u.counter);
            },
        }
        s
    }
}

fn render_param(p: &Parameter) -> (r: String)
    ensures
        r@ == param_text(*p),
    decreases p, 3nat,
{
    match p {
        ParameterKind::Ty(t) => render_ty(t),
        ParameterKind::Lifetime(l) => l.render(),
    }
}

/// The angle text of `ps` from position `start` on.
fn render_angle_from(ps: &Vec<Parameter>, start: usize) -> (r: String)
    requires
        start <= ps@.len(),
    ensures
        r@ == angle_text(ps@.subrange(start as int, ps@.len() as int)),
    decreases ps, 0nat,
{
    let ghost rest = ps@.subrange(start as int, ps@.len() as int);
    let mut s = String::new();
    if ps.len() == start {
        return s;
    }
    proof { reveal_strlit("<"); }
    s.append("<");
    let ghost open_s = s@;
    let mut i: usize = start;
    while i < ps.len()
        invariant
            start <= i <= ps@.len(),
            start < ps@.len(),
            rest == ps@.subrange(start as int, ps@.len() as int),
            open_s == seq!['<'],
            s@ == open_s + list_text(ps@.subrange(start as int, i as int)),
        decreases ps@.len() - i,
    {
        proof {
            assert(decreases_to!(ps => ps[i as int]));
        }
        if i > start {
            s.append(", ");
        }
        let item = render_param(&ps[i]);
        s.append(item.as_str());
        proof {
            let pre = ps@.subrange(start as int, i + 1);
            assert(pre.drop_last() =~= ps@.subrange(start as int, i as int));
            assert(pre.last() == ps@[i as int]);
            if i == start {
                assert(pre[0] == ps@[i as int]);
            }
            assert(s@ =~= open_s + list_text(pre));
        }
        i = i + 1;
    }
    proof { reveal_strlit(">"); }
    s.append(">");
    proof {
        assert(s@ =~= angle_text(rest));
    }
    s
}

fn render_angle(ps: &Vec<Parameter>) -> (r: String)
    ensures
        r@ == angle_text(ps@),
    decreases ps, 1nat,
{
    let r = render_angle_from(ps, 0);
    proof {
        assert(ps@.subrange(0, ps@.len() as int) =~= ps@);
    }
    r
}

/// The text of a type, as a debug rendering without a name registry.
pub fn render_ty(t: &Ty) -> (r: String)
    ensures
        r@ == ty_text(*t),
    decreases t, 2nat,
{
    match t {
        Ty::Var(d) => {
            let mut s = String::new();
            proof { reveal_strlit("?"); }
            s.append("?");
            push_decimal(&mut s, *d);
            s
        },
        Ty::Apply(a) => {
            let mut s = a.name.render();
            let rest = render_angle(&a.parameters);
            s.append(rest.as_str());
            s
        },
        Ty::Projection(p) => {
            let mut s = String::new();
            proof { reveal_strlit("("); reveal_strlit(")"); }
            s.append("(");
            let id = p.associated_ty_id.render();
            s.append(id.as_str());
            s.append(")");
            let rest = render_angle(&p.parameters);
            s.append(rest.as_str());
            proof {
                assert(s@ =~= ty_text(*t));
            }
            s
        },
        Ty::ForAll(q) => {
            let mut s = String::new();
            s.append("for<");
            push_decimal(&mut s, q.num_binders);
            s.append("> ");
            let body = render_ty(&q.ty);
            s.append(body.as_str());
            s
        },
    }
}

impl<'a> Angle<'a, Parameter> {
    /// Nothing for no items, else the items between angle brackets,
    /// separated by `", "`.
    pub fn render(&self) -> (r: String)
        ensures
            r@ == angle_text(self.0@),
    {
        let ps = self.0;
        let mut s = String::new();
        if ps.len() == 0 {
            return s;
        }
        proof { reveal_strlit("<"); }
        s.append("<");
        let ghost start = s@;
        let mut i: usize = 0;
        while i < ps.len()
            invariant
                i <= ps@.len(),
                ps@.len() > 0,
                ps@ == self.0@,
                start == seq!['<'],
                s@ == start + list_text(ps@.subrange(0, i as int)),
            decreases ps@.len() - i,
        {
            if i > 0 {
                s.append(", ");
            }
            let item = render_param(&ps[i]);
            s.append(item.as_str());
            proof {
                let pre = ps@.subrange(0, i + 1);
                assert(pre.drop_last() =~= ps@.subrange(0, i as int));
                assert(pre.last() == ps@[i as int]);
                if i == 0 {
                    assert(pre[0] == ps@[0]);
                }
                assert(s@ =~= start + list_text(pre));
            }
            i = i + 1;
        }
        proof { reveal_strlit(">"); }
        s.append(">");
        proof {
            assert(ps@.subrange(0, ps@.len() as int) =~= ps@);
            assert(s@ =~= angle_text(ps@));
        }
        s
    }
}

/// The first parameter, or nothing.
pub open spec fn head_text(ps: Seq<Parameter>) -> Seq<char> {
    if ps.len() > 0 { param_text(ps[0]) } else { Seq::empty() }
}

/// The parameters after the first.
pub open spec fn tail(ps: Seq<Parameter>) -> Seq<Parameter> {
    if ps.len() > 0 { ps.subrange(1, ps.len() as int) } else { ps }
}

pub open spec fn trait_ref_text(t: TraitRef) -> Seq<char> {
    head_text(t.parameters@) + " as "@ + item_text(t.trait_id) + angle_text(tail(t.parameters@))
}

pub open spec fn projection_text(p: ProjectionTy) -> Seq<char> {
    seq!['('] + item_text(p.associated_ty_id) + seq![')'] + angle_text(p.parameters@)
}

pub open spec fn domain_text(d: DomainGoal) -> Seq<char> {
    match d {
        DomainGoal::Implemented(t) => head_text(t.parameters@) + ": "@ + item_text(t.trait_id) + angle_text(
            tail(t.parameters@),
        ),
        DomainGoal::Normalize(n) => projection_text(n.projection) + " ==> "@ + ty_text(n.ty),
        DomainGoal::UnselectedNormalize(n) => head_text(n.projection.parameters@) + "::"@ + n.projection.assoc_name@
            + angle_text(tail(n.projection.parameters@)) + " ==> "@ + ty_text(n.ty),
        DomainGoal::WellFormed(WellFormed::Ty(t)) => "WellFormed("@ + ty_text(t) + seq![')'],
        DomainGoal::WellFormed(WellFormed::TraitRef(t)) => "WellFormed("@ + trait_ref_text(t) + seq![')'],
        DomainGoal::InScope(id) => "InScope("@ + item_text(id) + seq![')'],
    }
}

pub open spec fn leaf_text(l: LeafGoal) -> Seq<char> {
    match l {
        LeafGoal::EqGoal(e) => seq!['('] + param_text(e.a) + " = "@ + param_text(e.b) + seq![')'],
        LeafGoal::DomainGoal(d) => domain_text(d),
    }
}

pub open spec fn kind_text(k: ParameterKind<(), ()>) -> Seq<char> {
    match k {
        ParameterKind::Ty(_) => "type"@,
        ParameterKind::Lifetime(_) => "lifetime"@,
    }
}

/// Binder kinds separated by `", "`.
pub open spec fn kinds_text(ks: Seq<ParameterKind<(), ()>>) -> Seq<char>
    decreases ks.len(),
{
    if ks.len() == 0 {
        Seq::empty()
    } else if ks.len() == 1 {
        kind_text(ks[0])
    } else {
        kinds_text(ks.drop_last()) + ", "@ + kind_text(ks.last())
    }
}

/// Domain goals separated by `", "`.
pub open spec fn domains_text(ds: Seq<DomainGoal>) -> Seq<char>
    decreases ds.len(),
{
    if ds.len() == 0 {
        Seq::empty()
    } else if ds.len() == 1 {
        domain_text(ds[0])
    } else {
        domains_text(ds.drop_last()) + ", "@ + domain_text(ds.last())
    }
}

pub open spec fn quantifier_text(k: QuantifierKind) -> Seq<char> {
    match k {
        QuantifierKind::ForAll => "ForAll"@,
        QuantifierKind::Exists => "Exists"@,
    }
}

pub open spec fn goal_text(g: Goal) -> Seq<char>
    decreases g,
{
    match g {
        Goal::Quantified(k, b) => quantifier_text(k) + seq!['<'] + kinds_text(b.binders@) + "> { "@ + goal_text(b.value)
            + " }"@,
        Goal::Implies(wc, h) => "if (["@ + domains_text(wc@) + "]) { "@ + goal_text(*h) + " }"@,
        Goal::And(a, b) => seq!['('] + goal_text(*a) + ", "@ + goal_text(*b) + seq![')'],
        Goal::Not(h) => "not { "@ + goal_text(*h) + " }"@,
        Goal::Leaf(l) => leaf_text(l),
        Goal::CannotProve => "¯\\_(ツ)_/¯"@,
    }
}

/// The binder list `for<kinds> ` before a value, nothing for no binders.
pub open spec fn binders_prefix_text(ks: Seq<ParameterKind<(), ()>>) -> Seq<char> {
    if ks.len() == 0 { Seq::empty() } else { "for<"@ + kinds_text(ks) + "> "@ }
}

fn render_kinds(ks: &Vec<ParameterKind<(), ()>>) -> (r: String)
    ensures
        r@ == kinds_text(ks@),
{
    let mut s = String::new();
    let mut i: usize = 0;
    while i < ks.len()
        invariant
            i <= ks@.len(),
            s@ == kinds_text(ks@.subrange(0, i as int)),
        decreases ks@.len() - i,
    {
        if i > 0 {
            s.append(", ");
        }
        match ks[i] {
            ParameterKind::Ty(()) => s.append("type"),
            ParameterKind::Lifetime(()) => s.append("lifetime"),
        }
        proof {
            let pre = ks@.subrange(0, i + 1);
            assert(pre.drop_last() =~= ks@.subrange(0, i as int));
            assert(pre.last() == ks@[i as int]);
            if i == 0 {
                assert(pre[0] == ks@[0]);
            }
            assert(s@ =~= kinds_text(pre));
        }
        i = i + 1;
    }
    proof {
        assert(ks@.subrange(0, ks@.len() as int) =~= ks@);
    }
    s
}

/// The text of a parameter list's first entry, or nothing.
fn render_head(ps: &Vec<Parameter>) -> (r: String)
    ensures
        r@ == head_text(ps@),
{
    if ps.len() > 0 { render_param(&ps[0]) } else { String::new() }
}

fn render_tail(ps: &Vec<Parameter>) -> (r: String)
    ensures
        r@ == angle_text(tail(ps@)),
{
    if ps.len() > 0 {
        render_angle_from(ps, 1)
    } else {
        let r = render_angle_from(ps, 0);
        proof {
            assert(ps@.subrange(0, 0) =~= ps@);
        }
        r
    }
}

impl TraitRef {
    /// `Self as Trait<Args>`.
    pub fn render(&self) -> (r: String)
        ensures
            r@ == trait_ref_text(*self),
    {
        let mut s = render_head(&self.parameters);
        s.append(" as ");
        let id = self.trait_id.render();
        s.append(id.as_str());
        let rest = render_tail(&self.parameters);
        s.append(rest.as_str());
        s
    }
}

impl ProjectionTy {
    /// `(Id)<Args>`.
    pub fn render(&self) -> (r: String)
        ensures
            r@ == projection_text(*self),
    {
        let mut s = String::new();
        proof { reveal_strlit("("); reveal_strlit(")"); }
        s.append("(");
        let id = self.associated_ty_id.render();
        s.append(id.as_str());
        s.append(")");
        let rest = render_angle(&self.parameters);
        s.append(rest.as_str());
        proof {
            assert(s@ =~= projection_text(*self));
        }
        s
    }
}

impl DomainGoal {
    pub fn render(&self) -> (r: String)
        ensures
            r@ == domain_text(*self),
    {
        proof { reveal_strlit(")"); }
        match self {
            DomainGoal::Implemented(t) => {
                let mut s = render_head(&t.parameters);
                s.append(": ");
                let id = t.trait_id.render();
                s.append(id.as_str());
                let rest = render_tail(&t.parameters);
                s.append(rest.as_str());
                s
            },
            DomainGoal::Normalize(n) => {
                let mut s = n.projection.render();
                s.append(" ==> ");
                let t = render_ty(&n.ty);
                s.append(t.as_str());
                s
            },
            DomainGoal::UnselectedNormalize(n) => {
                let mut s = render_head(&n.projection.parameters);
                s.append("::");
                s.append(n.projection.assoc_name.as_str());
                let rest = render_tail(&n.projection.parameters);
                s.append(rest.as_str());
                s.append(" ==> ");
                let t = render_ty(&n.ty);
                s.append(t.as_str());
                s
            },
            DomainGoal::WellFormed(w) => {
                let mut s = String::new();
                s.append("WellFormed(");
                let inner = match w {
                    WellFormed::Ty(t) => render_ty(t),
                    WellFormed::TraitRef(t) => t.render(),
                };
                s.append(inner.as_str());
                s.append(")");
                s
            },
            DomainGoal::InScope(id) => {
                let mut s = String::new();
                s.append("InScope(");
                let t = id.render();
                s.append(t.as_str());
                s.append(")");
                s
            },
        }
    }
}

impl LeafGoal {
    pub fn render(&self) -> (r: String)
        ensures
            r@ == leaf_text(*self),
    {
        match self {
            LeafGoal::EqGoal(e) => {
                let mut s = String::new();
                proof { reveal_strlit("("); reveal_strlit(")"); }
                s.append("(");
                let a = render_param(&e.a);
                s.append(a.as_str());
                s.append(" = ");
                let b = render_param(&e.b);
                s.append(b.as_str());
                s.append(")");
                proof {
                    assert(s@ =~= leaf_text(*self));
                }
                s
            },
            LeafGoal::DomainGoal(d) => d.render(),
        }
    }
}

fn render_domains(ds: &Vec<DomainGoal>) -> (r: String)
    ensures
        r@ == domains_text(ds@),
{
    let mut s = String::new();
    let mut i: usize = 0;
    while i < ds.len()
        invariant
            i <= ds@.len(),
            s@ == domains_text(ds@.subrange(0, i as int)),
        decreases ds@.len() - i,
    {
        if i > 0 {
            s.append(", ");
        }
        let one = ds[i].render();
        s.append(one.as_str());
        proof {
            let pre = ds@.subrange(0, i + 1);
            assert(pre.drop_last() =~= ds@.subrange(0, i as int));
            assert(pre.last() == ds@[i as int]);
            if i == 0 {
                assert(pre[0] == ds@[0]);
            }
            assert(s@ =~= domains_text(pre));
        }
        i = i + 1;
    }
    proof {
        assert(ds@.subrange(0, ds@.len() as int) =~= ds@);
    }
    s
}

impl Goal {
    pub fn render(&self) -> (r: String)
        ensures
            r@ == goal_text(*self),
        decreases self,
    {
        proof { reveal_strlit("("); reveal_strlit(")"); reveal_strlit("<"); }
        match self {
            Goal::Quantified(k, b) => {
                let mut s = String::new();
                match k {
                    QuantifierKind::ForAll => s.append("ForAll"),
                    QuantifierKind::Exists => s.append("Exists"),
                }
                s.append("<");
                let ks = render_kinds(&b.binders);
                s.append(ks.as_str());
                s.append("> { ");
                let inner = b.value.render();
                s.append(inner.as_str());
                s.append(" }");
                s
            },
            Goal::Implies(wc, h) => {
                let mut s = String::new();
                s.append("if ([");
                let ds = render_domains(wc);
                s.append(ds.as_str());
                s.append("]) { ");
                let inner = h.render();
                s.append(inner.as_str());
                s.append(" }");
                s
            },
            Goal::And(a, b) => {
                let mut s = String::new();
                s.append("(");
                let x = a.render();
                s.append(x.as_str());
                s.append(", ");
                let y = b.render();
                s.append(y.as_str());
                s.append(")");
                proof {
                    assert(s@ =~= goal_text(*self));
                }
                s
            },
            Goal::Not(h) => {
                let mut s = String::new();
                s.append("not { ");
                let inner = h.render();
                s.append(inner.as_str());
                s.append(" }");
                s
            },
            Goal::Leaf(l) => l.render(),
            Goal::CannotProve => {
                let mut s = String::new();
                s.append("¯\\_(ツ)_/¯");
                s
            },
        }
    }
}

impl<T> Binders<T> {
    /// `for<kinds> ` when there are binders, nothing otherwise; the value's
    /// own text follows it.
    pub fn render_prefix(&self) -> (r: String)
        ensures
            r@ == binders_prefix_text(self.binders@),
    {
        let mut s = String::new();
        if self.binders.len() > 0 {
            s.append("for<");
            let ks = render_kinds(&self.binders);
            s.append(ks.as_str());
            s.append("> ");
        }
        s
    }
}

} // verus!

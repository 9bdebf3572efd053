//! Lowered type-level data: multiplicities, type expressions and source
//! locations.

use vstd::prelude::*;

use crate::ids::ElementId;

verus! {

broadcast use vstd::std_specs::vec::axiom_vec_index_decreases;

/// A multiplicity `[lower..upper]` as the compiler stores it.
#[derive(Clone, Debug, PartialEq, Eq)]
pub enum Multiplicity {
    /// `[1]`
    PureOne,
    /// `[0..1]`
    ZeroOrOne,
    /// `[*]`
    ZeroOrMany,
    /// `[1..*]`
    OneOrMany,
    /// `[lower..upper]`; `upper == None` means unbounded.
    Range { lower: u32, upper: Option<u32> },
    /// A multiplicity parameter (`m` in `T[m]`).
    Variable(String),
}

/// Mathematical view of a [`Multiplicity`].
pub enum MultView {
    PureOne,
    ZeroOrOne,
    ZeroOrMany,
    OneOrMany,
    Range { lower: u32, upper: Option<u32> },
    Variable(Seq<char>),
}

impl View for Multiplicity {
    type V = MultView;

    open spec fn view(&self) -> MultView {
        match self {
            Multiplicity::PureOne => MultView::PureOne,
            Multiplicity::ZeroOrOne => MultView::ZeroOrOne,
            Multiplicity::ZeroOrMany => MultView::ZeroOrMany,
            Multiplicity::OneOrMany => MultView::OneOrMany,
            Multiplicity::Range { lower, upper } => MultView::Range { lower: *lower, upper: *upper },
            Multiplicity::Variable(n) => MultView::Variable(n@),
        }
    }
}

impl Multiplicity {
    /// A copy with the same view.
    pub fn duplicate(&self) -> (r: Multiplicity)
        ensures
            r@ == self@,
    {
        match self {
            Multiplicity::PureOne => Multiplicity::PureOne,
            Multiplicity::ZeroOrOne => Multiplicity::ZeroOrOne,
            Multiplicity::ZeroOrMany => Multiplicity::ZeroOrMany,
            Multiplicity::OneOrMany => Multiplicity::OneOrMany,
            Multiplicity::Range { lower, upper } => Multiplicity::Range { lower: *lower, upper: *upper },
            Multiplicity::Variable(n) => Multiplicity::Variable(n.clone()),
        }
    }

    /// Whether this is a multiplicity parameter.
    pub fn is_variable(&self) -> (r: bool)
        ensures
            r == (self@ is Variable),
    {
        match self {
            Multiplicity::Variable(_) => true,
            _ => false,
        }
    }
}


/// A source span in a `.pure` file.
#[derive(Clone, Debug, PartialEq, Eq)]
pub struct SourceInfo {
    pub source: String,
    pub start_line: u32,
    pub start_column: u32,
    pub end_line: u32,
    pub end_column: u32,
}

/// View of a [`SourceInfo`].
pub struct SourceInfoView {
    pub source: Seq<char>,
    pub start_line: u32,
    pub start_column: u32,
    pub end_line: u32,
    pub end_column: u32,
}

impl View for SourceInfo {
    type V = SourceInfoView;

    open spec fn view(&self) -> SourceInfoView {
        SourceInfoView {
            source: self.source@,
            start_line: self.start_line,
            start_column: self.start_column,
            end_line: self.end_line,
            end_column: self.end_column,
        }
    }
}

/// A constant type-variable value (`Varchar(200)` carries `Integer(200)`).
#[derive(Clone, Debug, PartialEq, Eq)]
pub enum ConstValue {
    Integer(i64),
    String(String),
}

/// View of a [`ConstValue`].
pub enum ConstValueView {
    Integer(i64),
    String(Seq<char>),
}

impl View for ConstValue {
    type V = ConstValueView;

    open spec fn view(&self) -> ConstValueView {
        match self {
            ConstValue::Integer(i) => ConstValueView::Integer(*i),
            ConstValue::String(s) => ConstValueView::String(s@),
        }
    }
}

/// A structural relation column `name: Type[mult]`.
#[derive(Debug, PartialEq, Eq)]
pub struct RelationColumnTypeExpr {
    pub name: String,
    pub type_expr: TypeExpr,
    pub multiplicity: Multiplicity,
}

/// A resolved type expression.
#[derive(Debug, PartialEq, Eq)]
pub enum TypeExpr {
    /// A reference to a named element, with type / multiplicity / value
    /// arguments: `Pair<String, Integer>`.
    Named {
        element: ElementId,
        type_arguments: Vec<TypeExpr>,
        multiplicity_arguments: Vec<Multiplicity>,
        value_arguments: Vec<ConstValue>,
        source_info: Option<SourceInfo>,
    },
    /// A structural function type `{T[1], U[*] -> V[m]}`.
    FunctionType {
        parameters: Vec<(TypeExpr, Multiplicity)>,
        return_type: Box<TypeExpr>,
        return_multiplicity: Multiplicity,
    },
    /// A structural relation type `(a: Integer[1], b: String[0..1])`.
    Relation(Vec<RelationColumnTypeExpr>),
    /// A type parameter `T`.
    Generic(String),
    /// `T + U` in relation type algebra.
    AlgebraUnion(Box<TypeExpr>, Box<TypeExpr>),
    /// A type the compiler could not infer.
    Unresolved,
}

/// View of a [`TypeExpr`].
pub enum TypeExprView {
    Named {
        element: ElementId,
        type_arguments: Seq<TypeExprView>,
        multiplicity_arguments: Seq<MultView>,
        value_arguments: Seq<ConstValueView>,
        source_info: Option<SourceInfoView>,
    },
    FunctionType {
        parameters: Seq<(TypeExprView, MultView)>,
        return_type: Box<TypeExprView>,
        return_multiplicity: MultView,
    },
    Relation(Seq<(Seq<char>, TypeExprView, MultView)>),
    Generic(Seq<char>),
    AlgebraUnion(Box<TypeExprView>, Box<TypeExprView>),
    Unresolved,
}

pub open spec fn source_view(s: Option<SourceInfo>) -> Option<SourceInfoView> {
    match s {
        Some(si) => Some(si@),
        None => None,
    }
}

/// Views of a list of multiplicities.
pub open spec fn mults_view(v: Seq<Multiplicity>) -> Seq<MultView> {
    v.map_values(|m: Multiplicity| m@)
}

/// Views of a list of constant values.
pub open spec fn consts_view(v: Seq<ConstValue>) -> Seq<ConstValueView> {
    v.map_values(|c: ConstValue| c@)
}

/// View of a type expression (structural recursion).
pub open spec fn te_view(t: TypeExpr) -> TypeExprView
    decreases t,
{
    match t {
        TypeExpr::Named {
            element,
            type_arguments,
            multiplicity_arguments,
            value_arguments,
            source_info,
        } => TypeExprView::Named {
            element: element,
            type_arguments: Seq::new(
                type_arguments.len() as nat,
                |i: int| if 0 <= i < type_arguments.len() { te_view(type_arguments[i]) } else { TypeExprView::Unresolved },
            ),
            multiplicity_arguments: mults_view(multiplicity_arguments@),
            value_arguments: consts_view(value_arguments@),
            source_info: source_view(source_info),
        },
        TypeExpr::FunctionType { parameters, return_type, return_multiplicity } =>
            TypeExprView::FunctionType {
            parameters: Seq::new(
                parameters.len() as nat,
                |i: int| if 0 <= i < parameters.len() { (te_view(parameters[i].0), parameters[i].1@) } else { (TypeExprView::Unresolved, MultView::PureOne) },
            ),
            return_type: Box::new(te_view(*return_type)),
            return_multiplicity: return_multiplicity@,
        },
        TypeExpr::Relation(cols) => TypeExprView::Relation(
            Seq::new(
                cols.len() as nat,
                |i: int| if 0 <= i < cols.len() { (cols[i].name@, te_view(cols[i].type_expr), cols[i].multiplicity@) } else { (Seq::empty(), TypeExprView::Unresolved, MultView::PureOne) },
            ),
        ),
        TypeExpr::Generic(n) => TypeExprView::Generic(n@),
        TypeExpr::AlgebraUnion(a, b) => TypeExprView::AlgebraUnion(
            Box::new(te_view(*a)),
            Box::new(te_view(*b)),
        ),
        TypeExpr::Unresolved => TypeExprView::Unresolved,
    }
}

impl View for TypeExpr {
    type V = TypeExprView;

    open spec fn view(&self) -> TypeExprView {
        te_view(*self)
    }
}


impl SourceInfo {
    /// A copy with the same view.
    pub fn duplicate(&self) -> (r: SourceInfo)
        ensures
            r@ == self@,
    {
        SourceInfo {
            source: self.source.clone(),
            start_line: self.start_line,
            start_column: self.start_column,
            end_line: self.end_line,
            end_column: self.end_column,
        }
    }
}

impl ConstValue {
    /// A copy with the same view.
    pub fn duplicate(&self) -> (r: ConstValue)
        ensures
            r@ == self@,
    {
        match self {
            ConstValue::Integer(i) => ConstValue::Integer(*i),
            ConstValue::String(s) => ConstValue::String(s.clone()),
        }
    }
}

/// Copies a list of multiplicities, view for view.
pub fn dup_mults(v: &Vec<Multiplicity>) -> (r: Vec<Multiplicity>)
    ensures
        mults_view(r@) == mults_view(v@),
{
    let mut r: Vec<Multiplicity> = Vec::new();
    let mut i: usize = 0;
    while i < v.len()
        invariant
            i <= v.len(),
            r.len() == i,
            forall|j: int| 0 <= j < i ==> #[trigger] r@[j]@ == v@[j]@,
        decreases v.len() - i,
    {
        r.push(v[i].duplicate());
        i = i + 1;
    }
    assert(mults_view(r@) =~= mults_view(v@));
    r
}

/// Copies a list of constant values, view for view.
pub fn dup_consts(v: &Vec<ConstValue>) -> (r: Vec<ConstValue>)
    ensures
        consts_view(r@) == consts_view(v@),
{
    let mut r: Vec<ConstValue> = Vec::new();
    let mut i: usize = 0;
    while i < v.len()
        invariant
            i <= v.len(),
            r.len() == i,
            forall|j: int| 0 <= j < i ==> #[trigger] r@[j]@ == v@[j]@,
        decreases v.len() - i,
    {
        r.push(v[i].duplicate());
        i = i + 1;
    }
    assert(consts_view(r@) =~= consts_view(v@));
    r
}

/// Copies an optional source span.
pub fn dup_source(s: &Option<SourceInfo>) -> (r: Option<SourceInfo>)
    ensures
        source_view(r) == source_view(*s),
{
    match s {
        Some(si) => Some(si.duplicate()),
        None => None,
    }
}

/// Copies a list of type expressions, view for view.
pub fn dup_types(v: &Vec<TypeExpr>) -> (r: Vec<TypeExpr>)
    ensures
        r.len() == v.len(),
        forall|j: int| 0 <= j < v.len() ==> #[trigger] te_view(r@[j]) == te_view(v@[j]),
    decreases v,
{
    let mut r: Vec<TypeExpr> = Vec::new();
    let mut i: usize = 0;
    while i < v.len()
        invariant
            i <= v.len(),
            r.len() == i,
            forall|j: int| 0 <= j < i ==> #[trigger] te_view(r@[j]) == te_view(v@[j]),
        decreases v.len() - i,
    {
        proof {
            vstd::std_specs::vec::axiom_vec_index_decreases(*v, i as int);
        }
        r.push(v[i].duplicate());
        i = i + 1;
    }
    r
}

/// Copies a list of function-type parameters, view for view.
pub fn dup_params(v: &Vec<(TypeExpr, Multiplicity)>) -> (r: Vec<(TypeExpr, Multiplicity)>)
    ensures
        r.len() == v.len(),
        forall|j: int|
            0 <= j < v.len() ==> te_view(#[trigger] r@[j].0) == te_view(v@[j].0) && r@[j].1@ == v@[j].1@,
    decreases v,
{
    let mut r: Vec<(TypeExpr, Multiplicity)> = Vec::new();
    let mut i: usize = 0;
    while i < v.len()
        invariant
            i <= v.len(),
            r.len() == i,
            forall|j: int| 0 <= j < i ==> te_view(#[trigger] r@[j].0) == te_view(v@[j].0) && r@[j].1@ == v@[j].1@,
        decreases v.len() - i,
    {
        proof {
            vstd::std_specs::vec::axiom_vec_index_decreases(*v, i as int);
        }
        let t = v[i].0.duplicate();
        let m = v[i].1.duplicate();
        r.push((t, m));
        i = i + 1;
    }
    r
}

/// Copies a list of relation columns, view for view.
pub fn dup_columns(v: &Vec<RelationColumnTypeExpr>) -> (r: Vec<RelationColumnTypeExpr>)
    ensures
        r.len() == v.len(),
        forall|j: int|
            0 <= j < v.len() ==> #[trigger] r@[j].name@ == v@[j].name@ && te_view(r@[j].type_expr)
                == te_view(v@[j].type_expr) && r@[j].multiplicity@ == v@[j].multiplicity@,
    decreases v,
{
    let mut r: Vec<RelationColumnTypeExpr> = Vec::new();
    let mut i: usize = 0;
    while i < v.len()
        invariant
            i <= v.len(),
            r.len() == i,
            forall|j: int|
                0 <= j < i ==> #[trigger] r@[j].name@ == v@[j].name@ && te_view(r@[j].type_expr)
                    == te_view(v@[j].type_expr) && r@[j].multiplicity@ == v@[j].multiplicity@,
        decreases v.len() - i,
    {
        proof {
            vstd::std_specs::vec::axiom_vec_index_decreases(*v, i as int);
        }
        let c = RelationColumnTypeExpr {
            name: v[i].name.clone(),
            type_expr: v[i].type_expr.duplicate(),
            multiplicity: v[i].multiplicity.duplicate(),
        };
        r.push(c);
        i = i + 1;
    }
    r
}

impl TypeExpr {
    /// A copy with the same view.
    pub fn duplicate(&self) -> (r: TypeExpr)
        ensures
            r@ == self@,
        decreases self,
    {
        match self {
            TypeExpr::Named {
                element,
                type_arguments,
                multiplicity_arguments,
                value_arguments,
                source_info,
            } => {
                let ta = dup_types(type_arguments);
                let ma = dup_mults(multiplicity_arguments);
                let va = dup_consts(value_arguments);
                let si = dup_source(source_info);
                let r = TypeExpr::Named {
                    element: *element,
                    type_arguments: ta,
                    multiplicity_arguments: ma,
                    value_arguments: va,
                    source_info: si,
                };
                proof {
                    assert forall|i: int| 0 <= i < ta.len() implies te_view(ta[i]) == te_view(
                        type_arguments[i],
                    ) by {
                        assert(te_view(ta@[i]) == te_view(type_arguments@[i]));
                    }
                    assert(te_view(r)->type_arguments =~= te_view(*self)->type_arguments);
                }
                r
            },
            TypeExpr::FunctionType { parameters, return_type, return_multiplicity } => {
                let ps = dup_params(parameters);
                let rt = (**return_type).duplicate();
                let rm = return_multiplicity.duplicate();
                let r = TypeExpr::FunctionType {
                    parameters: ps,
                    return_type: Box::new(rt),
                    return_multiplicity: rm,
                };
                proof {
                    assert(te_view(r)->parameters =~= te_view(*self)->parameters);
                }
                r
            },
            TypeExpr::Relation(cols) => {
                let cs = dup_columns(cols);
                let r = TypeExpr::Relation(cs);
                proof {
                    assert(te_view(r)->Relation_0 =~= te_view(*self)->Relation_0);
                }
                r
            },
            TypeExpr::Generic(n) => TypeExpr::Generic(n.clone()),
            TypeExpr::AlgebraUnion(a, b) => {
                let a2 = (**a).duplicate();
                let b2 = (**b).duplicate();
                TypeExpr::AlgebraUnion(Box::new(a2), Box::new(b2))
            },
            TypeExpr::Unresolved => TypeExpr::Unresolved,
        }
    }
}


impl Multiplicity {
    /// Whether the two multiplicities have the same view.
    pub fn same_as(&self, other: &Multiplicity) -> (r: bool)
        ensures
            r == (self@ == other@),
    {
        match (self, other) {
            (Multiplicity::PureOne, Multiplicity::PureOne) => true,
            (Multiplicity::ZeroOrOne, Multiplicity::ZeroOrOne) => true,
            (Multiplicity::ZeroOrMany, Multiplicity::ZeroOrMany) => true,
            (Multiplicity::OneOrMany, Multiplicity::OneOrMany) => true,
            (
                Multiplicity::Range { lower: l1, upper: u1 },
                Multiplicity::Range { lower: l2, upper: u2 },
            ) => *l1 == *l2 && match (u1, u2) {
                (Some(a), Some(b)) => *a == *b,
                (None, None) => true,
                _ => false,
            },
            (Multiplicity::Variable(a), Multiplicity::Variable(b)) => *a == *b,
            _ => false,
        }
    }
}

impl ConstValue {
    /// Whether the two values have the same view.
    pub fn same_as(&self, other: &ConstValue) -> (r: bool)
        ensures
            r == (self@ == other@),
    {
        match (self, other) {
            (ConstValue::Integer(a), ConstValue::Integer(b)) => *a == *b,
            (ConstValue::String(a), ConstValue::String(b)) => *a == *b,
            _ => false,
        }
    }
}

impl SourceInfo {
    /// Whether the two spans have the same view.
    pub fn same_as(&self, other: &SourceInfo) -> (r: bool)
        ensures
            r == (self@ == other@),
    {
        self.source == other.source && self.start_line == other.start_line && self.start_column
            == other.start_column && self.end_line == other.end_line && self.end_column
            == other.end_column
    }
}

/// Two relation columns have the same view.
pub open spec fn column_same(a: RelationColumnTypeExpr, b: RelationColumnTypeExpr) -> bool {
    &&& a.name@ == b.name@
    &&& te_view(a.type_expr) == te_view(b.type_expr)
    &&& a.multiplicity@ == b.multiplicity@
}

fn same_source(a: &Option<SourceInfo>, b: &Option<SourceInfo>) -> (r: bool)
    ensures
        r == (source_view(*a) == source_view(*b)),
{
    match (a, b) {
        (Some(x), Some(y)) => x.same_as(y),
        (None, None) => true,
        _ => false,
    }
}

fn same_mults(a: &Vec<Multiplicity>, b: &Vec<Multiplicity>) -> (r: bool)
    ensures
        r == (mults_view(a@) == mults_view(b@)),
{
    if a.len() != b.len() {
        assert(mults_view(a@).len() != mults_view(b@).len());
        return false;
    }
    let mut i: usize = 0;
    while i < a.len()
        invariant
            a.len() == b.len(),
            i <= a.len(),
            forall|j: int| 0 <= j < i ==> #[trigger] a@[j]@ == b@[j]@,
        decreases a.len() - i,
    {
        if !a[i].same_as(&b[i]) {
            assert(mults_view(a@)[i as int] != mults_view(b@)[i as int]);
            return false;
        }
        i = i + 1;
    }
    assert(mults_view(a@) =~= mults_view(b@));
    true
}

fn same_consts(a: &Vec<ConstValue>, b: &Vec<ConstValue>) -> (r: bool)
    ensures
        r == (consts_view(a@) == consts_view(b@)),
{
    if a.len() != b.len() {
        assert(consts_view(a@).len() != consts_view(b@).len());
        return false;
    }
    let mut i: usize = 0;
    while i < a.len()
        invariant
            a.len() == b.len(),
            i <= a.len(),
            forall|j: int| 0 <= j < i ==> #[trigger] a@[j]@ == b@[j]@,
        decreases a.len() - i,
    {
        if !a[i].same_as(&b[i]) {
            assert(consts_view(a@)[i as int] != consts_view(b@)[i as int]);
            return false;
        }
        i = i + 1;
    }
    assert(consts_view(a@) =~= consts_view(b@));
    true
}

impl TypeExpr {
    /// Whether the two type expressions have the same view (structural
    /// equality, spans included).
    #[verifier::loop_isolation(false)]
    pub fn same_as(&self, other: &TypeExpr) -> (r: bool)
        ensures
            r == (self@ == other@),
        decreases self,
    {
        match (self, other) {
            (
                TypeExpr::Named {
                    element: e1,
                    type_arguments: t1,
                    multiplicity_arguments: m1,
                    value_arguments: v1,
                    source_info: s1,
                },
                TypeExpr::Named {
                    element: e2,
                    type_arguments: t2,
                    multiplicity_arguments: m2,
                    value_arguments: v2,
                    source_info: s2,
                },
            ) => {
                if *e1 != *e2 {
                    return false;
                }
                if t1.len() != t2.len() {
                    assert(self@->type_arguments.len() != other@->type_arguments.len());
                    return false;
                }
                let mut i: usize = 0;
                while i < t1.len()
                    invariant
                        t1.len() == t2.len(),
                        i <= t1.len(),
                        forall|j: int| 0 <= j < i ==> #[trigger] te_view(t1@[j]) == te_view(t2@[j]),
                    decreases t1.len() - i,
                {
                    proof {
                        vstd::std_specs::vec::axiom_vec_index_decreases(*t1, i as int);
                    }
                    if !t1[i].same_as(&t2[i]) {
                        assert(self@->type_arguments[i as int] != other@->type_arguments[i as int]);
                        return false;
                    }
                    i = i + 1;
                }
                assert forall|j: int| 0 <= j < t1.len() implies te_view(t1[j]) == te_view(t2[j]) by {
                    assert(te_view(t1@[j]) == te_view(t2@[j]));
                }
                assert(self@->type_arguments =~= other@->type_arguments);
                same_mults(m1, m2) && same_consts(v1, v2) && same_source(s1, s2)
            },
            (
                TypeExpr::FunctionType {
                    parameters: p1,
                    return_type: r1,
                    return_multiplicity: rm1,
                },
                TypeExpr::FunctionType {
                    parameters: p2,
                    return_type: r2,
                    return_multiplicity: rm2,
                },
            ) => {
                if p1.len() != p2.len() {
                    assert(self@->parameters.len() != other@->parameters.len());
                    return false;
                }
                let mut i: usize = 0;
                while i < p1.len()
                    invariant
                        p1.len() == p2.len(),
                        i <= p1.len(),
                        forall|j: int|
                            0 <= j < i ==> te_view(#[trigger] p1@[j].0) == te_view(p2@[j].0)
                                && p1@[j].1@ == p2@[j].1@,
                    decreases p1.len() - i,
                {
                    proof {
                        vstd::std_specs::vec::axiom_vec_index_decreases(*p1, i as int);
                    }
                    if !p1[i].0.same_as(&p2[i].0) || !p1[i].1.same_as(&p2[i].1) {
                        assert(self@->parameters[i as int] != other@->parameters[i as int]);
                        return false;
                    }
                    i = i + 1;
                }
                assert(self@->parameters =~= other@->parameters);
                (**r1).same_as(&**r2) && rm1.same_as(rm2)
            },
            (TypeExpr::Relation(c1), TypeExpr::Relation(c2)) => {
                if c1.len() != c2.len() {
                    assert(self@->Relation_0.len() != other@->Relation_0.len());
                    return false;
                }
                let mut i: usize = 0;
                while i < c1.len()
                    invariant
                        c1.len() == c2.len(),
                        i <= c1.len(),
                        forall|j: int| 0 <= j < i ==> column_same(#[trigger] c1@[j], c2@[j]),
                    decreases c1.len() - i,
                {
                    proof {
                        vstd::std_specs::vec::axiom_vec_index_decreases(*c1, i as int);
                    }
                    if !(c1[i].name == c2[i].name) || !c1[i].type_expr.same_as(&c2[i].type_expr)
                        || !c1[i].multiplicity.same_as(&c2[i].multiplicity) {
                        assert(self@->Relation_0[i as int] != other@->Relation_0[i as int]);
                        return false;
                    }
                    assert(c1@[i as int].name@ == c2@[i as int].name@);
                    assert(te_view(c1@[i as int].type_expr) == te_view(c2@[i as int].type_expr));
                    assert(c1@[i as int].multiplicity@ == c2@[i as int].multiplicity@);
                    assert(column_same(c1@[i as int], c2@[i as int]));
                    i = i + 1;
                }
                assert forall|j: int| 0 <= j < c1.len() implies self@->Relation_0[j]
                    == other@->Relation_0[j] by {
                    assert(column_same(c1@[j], c2@[j]));
                }
                assert(self@->Relation_0 =~= other@->Relation_0);
                true
            },
            (TypeExpr::Generic(a), TypeExpr::Generic(b)) => *a == *b,
            (TypeExpr::AlgebraUnion(a1, b1), TypeExpr::AlgebraUnion(a2, b2)) => {
                (**a1).same_as(&**a2) && (**b1).same_as(&**b2)
            },
            (TypeExpr::Unresolved, TypeExpr::Unresolved) => true,
            _ => false,
        }
    }
}


/// Component-wise description of the view of a type expression.
pub proof fn lemma_te_view_parts(t: TypeExpr)
    ensures
        t matches TypeExpr::Named {
            element,
            type_arguments,
            multiplicity_arguments,
            value_arguments,
            source_info,
        } ==> {
            &&& t@ is Named
            &&& t@->element == element
            &&& t@->type_arguments.len() == type_arguments.len()
            &&& forall|i: int|
                0 <= i < type_arguments.len() ==> #[trigger] t@->type_arguments[i] == te_view(
                    type_arguments@[i],
                )
            &&& t@->multiplicity_arguments == mults_view(multiplicity_arguments@)
            &&& t@->value_arguments == consts_view(value_arguments@)
            &&& t@->source_info == source_view(source_info)
        },
        t matches TypeExpr::FunctionType { parameters, return_type, return_multiplicity } ==> {
            &&& t@ is FunctionType
            &&& t@->parameters.len() == parameters.len()
            &&& forall|i: int|
                0 <= i < parameters.len() ==> #[trigger] t@->parameters[i] == (
                    te_view(parameters@[i].0),
                    parameters@[i].1@,
                )
            &&& *t@->return_type == te_view(*return_type)
            &&& t@->return_multiplicity == return_multiplicity@
        },
        t matches TypeExpr::Relation(cols) ==> {
            &&& t@ is Relation
            &&& t@->Relation_0.len() == cols.len()
            &&& forall|i: int|
                0 <= i < cols.len() ==> #[trigger] t@->Relation_0[i] == (
                    cols@[i].name@,
                    te_view(cols@[i].type_expr),
                    cols@[i].multiplicity@,
                )
        },
        t matches TypeExpr::Generic(n) ==> t@ == TypeExprView::Generic(n@),
        t matches TypeExpr::Unresolved ==> t@ == TypeExprView::Unresolved,
        t matches TypeExpr::AlgebraUnion(a, b) ==> t@ == TypeExprView::AlgebraUnion(
            Box::new(te_view(*a)),
            Box::new(te_view(*b)),
        ),
{
}

} // verus!

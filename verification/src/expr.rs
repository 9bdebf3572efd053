//! Lowered value specifications (expression trees).

use std::rc::Rc;

use vstd::prelude::*;

use crate::ids::ElementId;
use crate::types::{dup_source, source_view, Multiplicity, MultView, SourceInfo, SourceInfoView, TypeExpr,
    TypeExprView};

verus! {

/// A function / lambda / qualified-property parameter.
#[derive(Debug, PartialEq, Eq)]
pub struct Parameter {
    pub name: String,
    pub type_expr: TypeExpr,
    pub multiplicity: Multiplicity,
    pub source_info: Option<SourceInfo>,
}

/// View of a [`Parameter`].
pub struct ParameterView {
    pub name: Seq<char>,
    pub type_expr: TypeExprView,
    pub multiplicity: MultView,
    pub source_info: Option<SourceInfoView>,
}

impl View for Parameter {
    type V = ParameterView;

    open spec fn view(&self) -> ParameterView {
        ParameterView {
            name: self.name@,
            type_expr: self.type_expr@,
            multiplicity: self.multiplicity@,
            source_info: source_view(self.source_info),
        }
    }
}

/// Views of a list of parameters.
pub open spec fn params_view(s: Seq<Parameter>) -> Seq<ParameterView> {
    s.map_values(|p: Parameter| p@)
}

/// The inferred `(type, multiplicity)` attached to an expression.
#[derive(Debug, PartialEq, Eq)]
pub struct ResolvedType {
    pub type_expr: TypeExpr,
    pub multiplicity: Multiplicity,
}

/// A date literal.
#[derive(Clone, Debug, PartialEq, Eq)]
pub enum DateValue {
    /// `%2024-01-31`
    StrictDate(String),
    /// `%2024-01-31T10:00:00`
    DateTime(String),
    /// `%10:00:00`
    StrictTime(String),
    /// `%latest`
    Latest,
}

/// A lowered relation column (`~name: Type[mult]`).
#[derive(Debug, PartialEq, Eq)]
pub struct RelationColumnLowered {
    pub name: String,
    pub type_element: ElementId,
    pub multiplicity: Multiplicity,
}

/// Call data shared by function, property and qualified-property calls.
#[derive(Debug, PartialEq, Eq)]
pub struct FunctionCallData {
    /// The resolved callee, once dispatch has picked one.
    pub function: Option<ElementId>,
    pub function_name: String,
    pub arguments: Vec<ValueSpec>,
}

/// One step of a path literal (`#/Firm/employees/name#`).
#[derive(Debug, PartialEq, Eq)]
pub struct PathStep {
    pub name: String,
    pub parameters: Vec<ValueSpec>,
}

/// Expression node kinds.
#[derive(Debug, PartialEq, Eq)]
pub enum ExprKind {
    IntegerLiteral(i64),
    /// Float literal, kept as its source lexeme.
    FloatLiteral(String),
    /// Decimal literal, kept as its source lexeme.
    DecimalLiteral(String),
    StringLiteral(String),
    BooleanLiteral(bool),
    DateLiteral(DateValue),
    Variable { name: String },
    FunctionCall(FunctionCallData),
    PropertyCall(FunctionCallData),
    QualifiedPropertyCall(FunctionCallData),
    EnumValue { enum_element: ElementId, value: String },
    Lambda { parameters: Vec<Parameter>, body: Vec<ValueSpec> },
    Collection { elements: Vec<ValueSpec> },
    TypeReference { type_expr: TypeExpr },
    MultiplicityReference { multiplicity: Multiplicity },
    PackageableElementRef { element: ElementId },
    Column { name: String },
    RelationLiteral { columns: Vec<RelationColumnLowered> },
    ColSpecArrayLiteral { columns: Vec<RelationColumnLowered>, names: Vec<String> },
    ColSpecLiteral { column: RelationColumnLowered, name: String },
    PathLiteral { start_type: TypeExpr, steps: Vec<PathStep> },
}

/// A lowered expression with its source span and (once inferred) type.
#[derive(Debug, PartialEq, Eq)]
pub struct ValueSpec {
    pub kind: Rc<ExprKind>,
    pub source_info: SourceInfo,
    pub type_info: Option<ResolvedType>,
}

/// View of an optional resolved type.
pub open spec fn resolved_view(t: Option<ResolvedType>) -> Option<(TypeExprView, MultView)> {
    match t {
        Some(r) => Some((r.type_expr@, r.multiplicity@)),
        None => None,
    }
}

/// View of an expression: its node, span and inferred type.
pub type ValueSpecView = (ExprKind, SourceInfoView, Option<(TypeExprView, MultView)>);

impl View for ValueSpec {
    type V = ValueSpecView;

    open spec fn view(&self) -> ValueSpecView {
        (*self.kind, self.source_info@, resolved_view(self.type_info))
    }
}

/// Views of a sequence of expressions.
pub open spec fn values_view(s: Seq<ValueSpec>) -> Seq<ValueSpecView> {
    s.map_values(|v: ValueSpec| v@)
}

/// Shares an expression node (reference-count bump, no deep copy).
#[verifier::external_body]
fn share_kind(k: &Rc<ExprKind>) -> (r: Rc<ExprKind>)
    ensures
        r == *k,
{
    Rc::clone(k)
}

impl ResolvedType {
    /// A copy with the same view.
    pub fn duplicate(&self) -> (r: ResolvedType)
        ensures
            r.type_expr@ == self.type_expr@,
            r.multiplicity@ == self.multiplicity@,
    {
        ResolvedType {
            type_expr: self.type_expr.duplicate(),
            multiplicity: self.multiplicity.duplicate(),
        }
    }
}

impl ValueSpec {
    /// A copy denoting the same value; the expression node is shared.
    pub fn duplicate(&self) -> (r: ValueSpec)
        ensures
            r@ == self@,
    {
        let ti = match &self.type_info {
            Some(t) => Some(t.duplicate()),
            None => None,
        };
        ValueSpec { kind: share_kind(&self.kind), source_info: self.source_info.duplicate(), type_info: ti }
    }
}

} // verus!

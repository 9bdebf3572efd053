//! Compiled element payloads: classes, properties, associations,
//! enumerations, functions, profiles, measures, units and primitive types,
//! plus the stereotype / tagged-value references they carry.

use vstd::prelude::*;

use crate::expr::{params_view, values_view, Parameter, ParameterView, ValueSpec, ValueSpecView};
use crate::ids::ElementId;
use crate::types::{
    source_view, ConstValue, MultView, Multiplicity, SourceInfo, SourceInfoView, TypeExpr, TypeExprView,
};
use crate::milestoning::dates::opt_view;

verus! {

/// A resolved stereotype application `<<profile.value>>`.
#[derive(Debug, PartialEq, Eq)]
pub struct StereotypeRef {
    /// The profile declaring the stereotype.
    pub profile: ElementId,
    /// The stereotype name.
    pub value: String,
    /// Where the application was written, when known.
    pub source_info: Option<SourceInfo>,
}

/// A resolved tagged value `{profile.tag = 'value'}`.
#[derive(Debug, PartialEq, Eq)]
pub struct TaggedValueRef {
    pub profile: ElementId,
    pub tag: String,
    pub value: String,
    /// Where the tagged value was written, when known.
    pub source_info: Option<SourceInfo>,
}

/// Variance of a class type parameter.
#[derive(Clone, Copy, Debug, PartialEq, Eq, Hash, Structural)]
pub enum Variance {
    Invariant,
    Covariant,
    Contravariant,
}

/// Aggregation kind of a property.
#[derive(Clone, Copy, Debug, PartialEq, Eq, Structural)]
pub enum AggregationKind {
    /// `(none)`
    NoAggregation,
    Shared,
    Composite,
}

/// A class or association property.
#[derive(Debug, PartialEq, Eq)]
pub struct Property {
    pub name: String,
    pub source_info: SourceInfo,
    pub type_expr: TypeExpr,
    pub multiplicity: Multiplicity,
    pub aggregation: Option<AggregationKind>,
    pub default_value: Option<ValueSpec>,
    pub stereotypes: Vec<StereotypeRef>,
    pub tagged_values: Vec<TaggedValueRef>,
}

/// A qualified (derived) property.
#[derive(Debug, PartialEq, Eq)]
pub struct QualifiedProperty {
    pub name: String,
    pub source_info: SourceInfo,
    pub parameters: Vec<Parameter>,
    pub return_type: TypeExpr,
    pub return_multiplicity: Multiplicity,
    pub body: Vec<ValueSpec>,
    pub stereotypes: Vec<StereotypeRef>,
    pub tagged_values: Vec<TaggedValueRef>,
}

/// A class constraint.
#[derive(Debug, PartialEq, Eq)]
pub struct Constraint {
    pub name: Option<String>,
    pub source_info: SourceInfo,
    pub function: ValueSpec,
    pub enforcement_level: Option<String>,
    pub external_id: Option<String>,
    pub message: Option<ValueSpec>,
}

/// A compiled class. Stores generalizations only.
#[derive(Debug, PartialEq, Eq)]
pub struct Class {
    pub type_parameters: Vec<String>,
    pub type_parameter_variances: Vec<Variance>,
    pub multiplicity_parameters: Vec<String>,
    pub type_variable_parameters: Vec<Parameter>,
    pub super_types: Vec<TypeExpr>,
    pub properties: Vec<Property>,
    pub qualified_properties: Vec<QualifiedProperty>,
    pub constraints: Vec<Constraint>,
    pub stereotypes: Vec<StereotypeRef>,
    pub tagged_values: Vec<TaggedValueRef>,
    /// Declared properties whose target class is milestoned, moved aside
    /// by milestoning synthesis.
    pub original_milestoned_properties: Vec<Property>,
}

/// An association linking two classes.
#[derive(Debug, PartialEq, Eq)]
pub struct Association {
    pub properties: Vec<Property>,
    pub qualified_properties: Vec<QualifiedProperty>,
    pub stereotypes: Vec<StereotypeRef>,
    pub tagged_values: Vec<TaggedValueRef>,
    pub original_milestoned_properties: Vec<Property>,
}

/// One value of an enumeration.
#[derive(Debug, PartialEq, Eq)]
pub struct EnumValue {
    pub name: String,
    pub source_info: SourceInfo,
    pub stereotypes: Vec<StereotypeRef>,
    pub tagged_values: Vec<TaggedValueRef>,
}

/// An enumeration.
#[derive(Debug, PartialEq, Eq)]
pub struct Enumeration {
    pub values: Vec<EnumValue>,
    pub stereotypes: Vec<StereotypeRef>,
    pub tagged_values: Vec<TaggedValueRef>,
}

/// A top-level function definition.
#[derive(Debug, PartialEq, Eq)]
pub struct Function {
    pub function_name: String,
    pub is_native: bool,
    pub parameters: Vec<Parameter>,
    pub return_type: TypeExpr,
    pub return_multiplicity: Multiplicity,
    pub body: Vec<ValueSpec>,
    pub stereotypes: Vec<StereotypeRef>,
    pub tagged_values: Vec<TaggedValueRef>,
}

/// A declared name with its source span.
#[derive(Debug, PartialEq, Eq)]
pub struct SpannedString {
    pub value: String,
    pub source_info: SourceInfo,
}

/// A profile declaring stereotypes and tags.
#[derive(Debug, PartialEq, Eq)]
pub struct Profile {
    pub stereotypes: Vec<SpannedString>,
    pub tags: Vec<SpannedString>,
}

/// A measure: canonical and non-canonical units.
#[derive(Debug, PartialEq, Eq)]
pub struct Measure {
    pub canonical_unit: Option<ElementId>,
    pub non_canonical_units: Vec<ElementId>,
}

/// A unit of a measure.
#[derive(Debug, PartialEq, Eq)]
pub struct Unit {
    pub measure: ElementId,
    pub conversion_expression: Option<ValueSpec>,
}

/// A primitive type (`String`, `Integer`, `Varchar(x)` ...).
#[derive(Debug, PartialEq, Eq)]
pub struct PrimitiveType {
    pub super_type: Option<ElementId>,
    pub super_type_value_arguments: Vec<ConstValue>,
    pub type_variable_parameters: Vec<Parameter>,
    pub constraints: Vec<Constraint>,
}

/// Source name carried by declarations whose span is not tracked.
pub const BOOTSTRAP_SOURCE: &'static str = "<bootstrap>";

/// A name-only declaration with the bootstrap sentinel source.
pub fn bootstrap_spanned_name(name: String) -> (r: SpannedString)
    ensures
        r.value@ == name@,
        r.source_info.source@ == BOOTSTRAP_SOURCE@,
        r.source_info.start_line == 0,
        r.source_info.start_column == 0,
        r.source_info.end_line == 0,
        r.source_info.end_column == 0,
{
    SpannedString {
        value: name,
        source_info: SourceInfo {
            source: BOOTSTRAP_SOURCE.to_owned(),
            start_line: 0,
            start_column: 0,
            end_line: 0,
            end_column: 0,
        },
    }
}

impl Class {
    /// Names of the class's type parameters.
    pub fn type_parameter_names(&self) -> (r: Vec<String>)
        ensures
            r@.map_values(|s: String| s@) == self.type_parameters@.map_values(|s: String| s@),
    {
        let mut r: Vec<String> = Vec::new();
        let mut i: usize = 0;
        while i < self.type_parameters.len()
            invariant
                i <= self.type_parameters.len(),
                r.len() == i,
                forall|j: int| 0 <= j < i ==> #[trigger] r@[j]@ == self.type_parameters@[j]@,
            decreases self.type_parameters.len() - i,
        {
            r.push(self.type_parameters[i].clone());
            i = i + 1;
        }
        assert(r@.map_values(|s: String| s@) =~= self.type_parameters@.map_values(|s: String| s@));
        r
    }
}

/// View of a [`StereotypeRef`].
pub struct StereotypeRefView {
    pub profile: ElementId,
    pub value: Seq<char>,
    pub source_info: Option<SourceInfoView>,
}

impl View for StereotypeRef {
    type V = StereotypeRefView;

    open spec fn view(&self) -> StereotypeRefView {
        StereotypeRefView {
            profile: self.profile,
            value: self.value@,
            source_info: source_view(self.source_info),
        }
    }
}

impl StereotypeRef {
    /// A copy with the same view.
    pub fn duplicate(&self) -> (r: StereotypeRef)
        ensures
            r@ == self@,
    {
        StereotypeRef {
            profile: self.profile,
            value: self.value.clone(),
            source_info: crate::types::dup_source(&self.source_info),
        }
    }
}

/// Views of a list of stereotype applications.
pub open spec fn stereos_view(s: Seq<StereotypeRef>) -> Seq<StereotypeRefView> {
    s.map_values(|x: StereotypeRef| x@)
}

/// View of a [`TaggedValueRef`].
pub struct TaggedValueRefView {
    pub profile: ElementId,
    pub tag: Seq<char>,
    pub value: Seq<char>,
    pub source_info: Option<SourceInfoView>,
}

impl View for TaggedValueRef {
    type V = TaggedValueRefView;

    open spec fn view(&self) -> TaggedValueRefView {
        TaggedValueRefView {
            profile: self.profile,
            tag: self.tag@,
            value: self.value@,
            source_info: source_view(self.source_info),
        }
    }
}

/// Views of a list of tagged values.
pub open spec fn tags_view(s: Seq<TaggedValueRef>) -> Seq<TaggedValueRefView> {
    s.map_values(|x: TaggedValueRef| x@)
}

/// View of a [`Property`].
pub struct PropertyView {
    pub name: Seq<char>,
    pub source_info: SourceInfoView,
    pub type_expr: TypeExprView,
    pub multiplicity: MultView,
    pub aggregation: Option<AggregationKind>,
    pub default_value: Option<ValueSpecView>,
    pub stereotypes: Seq<StereotypeRefView>,
    pub tagged_values: Seq<TaggedValueRefView>,
}

impl View for Property {
    type V = PropertyView;

    open spec fn view(&self) -> PropertyView {
        PropertyView {
            name: self.name@,
            source_info: self.source_info@,
            type_expr: self.type_expr@,
            multiplicity: self.multiplicity@,
            aggregation: self.aggregation,
            default_value: opt_view(self.default_value),
            stereotypes: stereos_view(self.stereotypes@),
            tagged_values: tags_view(self.tagged_values@),
        }
    }
}

/// Views of a list of properties.
pub open spec fn props_view(s: Seq<Property>) -> Seq<PropertyView> {
    s.map_values(|x: Property| x@)
}

/// View of a [`QualifiedProperty`].
pub struct QualifiedPropertyView {
    pub name: Seq<char>,
    pub source_info: SourceInfoView,
    pub parameters: Seq<ParameterView>,
    pub return_type: TypeExprView,
    pub return_multiplicity: MultView,
    pub body: Seq<ValueSpecView>,
    pub stereotypes: Seq<StereotypeRefView>,
    pub tagged_values: Seq<TaggedValueRefView>,
}

impl View for QualifiedProperty {
    type V = QualifiedPropertyView;

    open spec fn view(&self) -> QualifiedPropertyView {
        QualifiedPropertyView {
            name: self.name@,
            source_info: self.source_info@,
            parameters: params_view(self.parameters@),
            return_type: self.return_type@,
            return_multiplicity: self.return_multiplicity@,
            body: values_view(self.body@),
            stereotypes: stereos_view(self.stereotypes@),
            tagged_values: tags_view(self.tagged_values@),
        }
    }
}

/// Views of a list of qualified properties.
pub open spec fn qps_view(s: Seq<QualifiedProperty>) -> Seq<QualifiedPropertyView> {
    s.map_values(|x: QualifiedProperty| x@)
}

} // verus!

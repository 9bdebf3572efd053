//! Pieces of element lowering that do not depend on source syntax: the
//! constraint slot signatures, and patching lowered bodies and default
//! values into already-declared properties.

use vstd::prelude::*;

use crate::expr::ValueSpec;
use crate::model::names_view;
use crate::purem::fqn_path::{fqn_path_to_string, join_path};
use vstd::string::StringExecFns;
use crate::ids::{boolean_id, string_id};
use crate::model::PureModel;
use crate::multiplicity::{is_multiplicity_compatible, mult_compatible};
use crate::nodes::{Property, QualifiedProperty};
use crate::resolve::{is_type_compatible_structural, struct_compatible};
use crate::types::{Multiplicity, MultView, TypeExpr, TypeExprView};

verus! {

/// The two expression slots of a class constraint.
#[derive(Clone, Copy, Debug, PartialEq, Eq, Structural)]
pub enum ConstraintSlotName {
    /// The predicate; must be `Boolean[1]`.
    Body,
    /// The failure message; must be `String[1]`.
    Message,
}

impl ConstraintSlotName {
    /// The element a slot's expression must have as its type.
    pub open spec fn expected_element(self) -> crate::ids::ElementId {
        match self {
            ConstraintSlotName::Body => boolean_id(),
            ConstraintSlotName::Message => string_id(),
        }
    }

    /// The slot's name in diagnostics.
    pub fn label(self) -> (r: &'static str)
        ensures
            r@ == match self {
                ConstraintSlotName::Body => "body"@,
                ConstraintSlotName::Message => "message"@,
            },
    {
        match self {
            ConstraintSlotName::Body => "body",
            ConstraintSlotName::Message => "message",
        }
    }

    /// The required signature as written in diagnostics.
    pub fn expected_label(self) -> (r: &'static str)
        ensures
            r@ == match self {
                ConstraintSlotName::Body => "Boolean[1]"@,
                ConstraintSlotName::Message => "String[1]"@,
            },
    {
        match self {
            ConstraintSlotName::Body => "Boolean[1]",
            ConstraintSlotName::Message => "String[1]",
        }
    }

    /// The required type: the bare expected element.
    pub fn expected_type(self) -> (r: TypeExpr)
        ensures
            r@ == (TypeExprView::Named {
                element: self.expected_element(),
                type_arguments: Seq::empty(),
                multiplicity_arguments: Seq::empty(),
                value_arguments: Seq::empty(),
                source_info: None,
            }),
    {
        let element = match self {
            ConstraintSlotName::Body => boolean_id(),
            ConstraintSlotName::Message => string_id(),
        };
        let r = TypeExpr::Named {
            element,
            type_arguments: Vec::new(),
            multiplicity_arguments: Vec::new(),
            value_arguments: Vec::new(),
            source_info: None,
        };
        assert(r@->type_arguments =~= Seq::<TypeExprView>::empty());
        assert(r@->multiplicity_arguments =~= Seq::<MultView>::empty());
        assert(r@->value_arguments =~= Seq::<crate::types::ConstValueView>::empty());
        r
    }
}

/// Whether an expression of the given inferred type and multiplicity fits
/// a constraint slot: its type is structurally compatible with the slot's
/// type and its multiplicity with `[1]`.
pub fn constraint_slot_accepts(
    actual_type: &TypeExpr,
    actual_mult: &Multiplicity,
    slot: ConstraintSlotName,
    model: &PureModel,
) -> (r: bool)
    requires
        model.hierarchy_wf(),
        model.ids_valid(actual_type@),
    ensures
        r == (struct_compatible(
            *model,
            actual_type@,
            TypeExprView::Named {
                element: slot.expected_element(),
                type_arguments: Seq::empty(),
                multiplicity_arguments: Seq::empty(),
                value_arguments: Seq::empty(),
                source_info: None,
            },
        ) && mult_compatible(Some(actual_mult@), MultView::PureOne)),
{
    let expected = slot.expected_type();
    let type_ok = is_type_compatible_structural(actual_type, &expected, model);
    let one = Multiplicity::PureOne;
    let mult_ok = is_multiplicity_compatible(Some(actual_mult), &one);
    type_ok && mult_ok
}

/// Installs lowered bodies into declared qualified properties, position by
/// position; bodies or properties beyond the shorter list are left out.
pub fn patch_qp_bodies(model_qps: &mut Vec<QualifiedProperty>, new_bodies: Vec<Vec<ValueSpec>>)
    ensures
        final(model_qps)@.len() == old(model_qps)@.len(),
        forall|i: int|
            0 <= i < old(model_qps)@.len() ==> {
                let q = #[trigger] final(model_qps)@[i];
                let o = old(model_qps)@[i];
                &&& q.body == (if i < new_bodies@.len() {
                    new_bodies@[i]
                } else {
                    o.body
                })
                &&& q.name == o.name
                &&& q.source_info == o.source_info
                &&& q.parameters == o.parameters
                &&& q.return_type == o.return_type
                &&& q.return_multiplicity == o.return_multiplicity
                &&& q.stereotypes == o.stereotypes
                &&& q.tagged_values == o.tagged_values
            },
{
    let ghost orig = model_qps@;
    let ghost bodies = new_bodies@;
    let mut new_bodies = new_bodies;
    let n = if model_qps.len() < new_bodies.len() {
        model_qps.len()
    } else {
        new_bodies.len()
    };
    new_bodies.truncate(n);
    let mut k: usize = n;
    while k > 0
        invariant
            k <= n,
            n <= orig.len(),
            n <= bodies.len(),
            model_qps@.len() == orig.len(),
            new_bodies@ == bodies.take(k as int),
            forall|i: int|
                0 <= i < orig.len() ==> {
                    let q = #[trigger] model_qps@[i];
                    let o = orig[i];
                    &&& q.body == (if k <= i < n {
                        bodies[i]
                    } else {
                        o.body
                    })
                    &&& q.name == o.name
                    &&& q.source_info == o.source_info
                    &&& q.parameters == o.parameters
                    &&& q.return_type == o.return_type
                    &&& q.return_multiplicity == o.return_multiplicity
                    &&& q.stereotypes == o.stereotypes
                    &&& q.tagged_values == o.tagged_values
                },
        decreases k,
    {
        let body = new_bodies.pop().unwrap();
        k = k - 1;
        assert(body == bodies[k as int]);
        model_qps[k].body = body;
    }
}

/// Installs lowered default values into declared properties, position by
/// position; values or properties beyond the shorter list are left out.
pub fn patch_property_default_values(
    model_props: &mut Vec<Property>,
    new_defaults: Vec<Option<ValueSpec>>,
)
    ensures
        final(model_props)@.len() == old(model_props)@.len(),
        forall|i: int|
            0 <= i < old(model_props)@.len() ==> {
                let p = #[trigger] final(model_props)@[i];
                let o = old(model_props)@[i];
                &&& p.default_value == (if i < new_defaults@.len() {
                    new_defaults@[i]
                } else {
                    o.default_value
                })
                &&& p.name == o.name
                &&& p.source_info == o.source_info
                &&& p.type_expr == o.type_expr
                &&& p.multiplicity == o.multiplicity
                &&& p.aggregation == o.aggregation
                &&& p.stereotypes == o.stereotypes
                &&& p.tagged_values == o.tagged_values
            },
{
    let ghost orig = model_props@;
    let ghost defaults = new_defaults@;
    let mut new_defaults = new_defaults;
    let n = if model_props.len() < new_defaults.len() {
        model_props.len()
    } else {
        new_defaults.len()
    };
    new_defaults.truncate(n);
    let mut k: usize = n;
    while k > 0
        invariant
            k <= n,
            n <= orig.len(),
            n <= defaults.len(),
            model_props@.len() == orig.len(),
            new_defaults@ == defaults.take(k as int),
            forall|i: int|
                0 <= i < orig.len() ==> {
                    let p = #[trigger] model_props@[i];
                    let o = orig[i];
                    &&& p.default_value == (if k <= i < n {
                        defaults[i]
                    } else {
                        o.default_value
                    })
                    &&& p.name == o.name
                    &&& p.source_info == o.source_info
                    &&& p.type_expr == o.type_expr
                    &&& p.multiplicity == o.multiplicity
                    &&& p.aggregation == o.aggregation
                    &&& p.stereotypes == o.stereotypes
                    &&& p.tagged_values == o.tagged_values
                },
        decreases k,
    {
        let dv = new_defaults.pop().unwrap();
        k = k - 1;
        assert(dv == defaults[k as int]);
        model_props[k].default_value = dv;
    }
}

/// The fully qualified name of `name` in the package `pkg_path`
/// (`model::domain::Person`; just the name at the root).
pub fn build_fqn(pkg_path: &[String], name: &String) -> (r: String)
    ensures
        r@ == join_path(names_view(pkg_path@).push(name@)),
{
    let ghost segs = names_view(pkg_path@).push(name@);
    if pkg_path.len() == 0 {
        assert(segs =~= seq![name@]);
        return name.clone();
    }
    let mut fqn = fqn_path_to_string(pkg_path);
    fqn.append("::");
    fqn.append(name.as_str());
    assert(segs.drop_last() =~= names_view(pkg_path@));
    fqn
}

} // verus!

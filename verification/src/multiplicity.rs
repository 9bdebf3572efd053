//! Multiplicity algebra: bounds, compatibility, products and least upper
//! bounds, as used by overload narrowing and property-chain inference.

use vstd::prelude::*;

use crate::types::{MultView, Multiplicity};

verus! {

/// The "unbounded" upper bound.
pub open spec fn unbounded() -> u32 {
    u32::MAX
}

/// `(lower, upper)` of a multiplicity; an unbounded upper is `u32::MAX`.
/// A parameter (`Variable`) has the bounds of `[*]`.
pub open spec fn bounds(m: MultView) -> (u32, u32) {
    match m {
        MultView::PureOne => (1, 1),
        MultView::ZeroOrOne => (0, 1),
        MultView::OneOrMany => (1, u32::MAX),
        MultView::Range { lower, upper } => (
            lower,
            match upper {
                Some(u) => u,
                None => u32::MAX,
            },
        ),
        MultView::ZeroOrMany | MultView::Variable(_) => (0, u32::MAX),
    }
}

/// Whether `arg` fits inside `param`. An unknown argument (`None`) and a
/// multiplicity parameter on either side are permissive.
pub open spec fn mult_compatible(arg: Option<MultView>, param: MultView) -> bool {
    match arg {
        None => true,
        Some(a) => {
            if a is Variable || param is Variable {
                true
            } else {
                bounds(a).0 >= bounds(param).0 && bounds(a).1 <= bounds(param).1
            }
        },
    }
}

/// `a * b` saturating at `u32::MAX`.
pub open spec fn sat_mul(a: u32, b: u32) -> u32 {
    if a * b >= u32::MAX {
        u32::MAX
    } else {
        (a * b) as u32
    }
}

/// The multiplicity a property chain `receiver.property` produces: either
/// side a parameter gives back the receiver; either side `[*]` gives
/// `[*]`; otherwise both bounds are multiplied (saturating), and the
/// product is written in its named form where one exists.
pub open spec fn product(receiver: MultView, property: MultView) -> MultView {
    if receiver is Variable || property is Variable {
        receiver
    } else if bounds(receiver) == (0u32, u32::MAX) || bounds(property) == (0u32, u32::MAX) {
        MultView::ZeroOrMany
    } else {
        let lo = sat_mul(bounds(receiver).0, bounds(property).0);
        let hi = sat_mul(bounds(receiver).1, bounds(property).1);
        if lo == 1 && hi == 1 {
            MultView::PureOne
        } else if lo == 0 && hi == 1 {
            MultView::ZeroOrOne
        } else if lo == 1 && hi == u32::MAX {
            MultView::OneOrMany
        } else if lo == 0 && hi == u32::MAX {
            MultView::ZeroOrMany
        } else {
            MultView::Range { lower: lo, upper: if hi == u32::MAX { None } else { Some(hi) } }
        }
    }
}

/// The smallest range covering both `a` and `b`.
pub open spec fn lub(a: MultView, b: MultView) -> MultView {
    let lower = if bounds(a).0 <= bounds(b).0 { bounds(a).0 } else { bounds(b).0 };
    let upper = if bounds(a).1 >= bounds(b).1 { bounds(a).1 } else { bounds(b).1 };
    if lower == 1 && upper == 1 {
        MultView::PureOne
    } else if lower == 0 && upper == 1 {
        MultView::ZeroOrOne
    } else if lower == 1 && upper == u32::MAX {
        MultView::OneOrMany
    } else {
        MultView::Range { lower, upper: if upper == u32::MAX { None } else { Some(upper) } }
    }
}

/// Specificity score: `[1]` 4, bounded 3, `[1..*]` 2, unbounded 1.
pub open spec fn specificity(m: MultView) -> i32 {
    match m {
        MultView::PureOne => 4,
        MultView::OneOrMany => 2,
        MultView::ZeroOrOne => 3,
        MultView::Range { upper: Some(_), .. } => 3,
        _ => 1,
    }
}

/// The edge-point ("all versions") form of a multiplicity: same lower
/// bound, unbounded upper.
pub open spec fn widen(m: MultView) -> MultView {
    match m {
        MultView::PureOne | MultView::OneOrMany => MultView::OneOrMany,
        MultView::ZeroOrOne | MultView::ZeroOrMany | MultView::Variable(_) => MultView::ZeroOrMany,
        MultView::Range { lower, .. } => {
            if lower == 0 {
                MultView::ZeroOrMany
            } else if lower == 1 {
                MultView::OneOrMany
            } else {
                MultView::Range { lower, upper: None }
            }
        },
    }
}

/// Returns `(lower, upper)` bounds for a multiplicity, an unbounded upper
/// being `u32::MAX`.
pub fn mult_bounds(m: &Multiplicity) -> (r: (u32, u32))
    ensures
        r == bounds(m@),
{
    match m {
        Multiplicity::PureOne => (1, 1),
        Multiplicity::ZeroOrOne => (0, 1),
        Multiplicity::OneOrMany => (1, u32::MAX),
        Multiplicity::Range { lower, upper } => (
            *lower,
            match upper {
                Some(u) => *u,
                None => u32::MAX,
            },
        ),
        Multiplicity::ZeroOrMany | Multiplicity::Variable(_) => (0, u32::MAX),
    }
}

/// Checks whether `arg_mult` fits within `param_mult`.
pub fn is_multiplicity_compatible(arg_mult: Option<&Multiplicity>, param_mult: &Multiplicity) -> (r:
    bool)
    ensures
        r == mult_compatible(
            match arg_mult {
                Some(a) => Some(a@),
                None => None,
            },
            param_mult@,
        ),
{
    let am = match arg_mult {
        None => {
            return true;
        },
        Some(a) => a,
    };
    if am.is_variable() {
        return true;
    }
    if param_mult.is_variable() {
        return true;
    }
    let (arg_lo, arg_hi) = mult_bounds(am);
    let (param_lo, param_hi) = mult_bounds(param_mult);
    arg_lo >= param_lo && arg_hi <= param_hi
}

fn saturating_mul_u32(a: u32, b: u32) -> (r: u32)
    ensures
        r == sat_mul(a, b),
{
    match a.checked_mul(b) {
        Some(v) => {
            if v == u32::MAX {
                u32::MAX
            } else {
                v
            }
        },
        None => u32::MAX,
    }
}

/// Multiplicity of a property access `receiver.prop`.
pub fn multiplicity_product(receiver_mult: &Multiplicity, property_mult: &Multiplicity) -> (r:
    Multiplicity)
    ensures
        r@ == product(receiver_mult@, property_mult@),
{
    if receiver_mult.is_variable() || property_mult.is_variable() {
        return receiver_mult.duplicate();
    }
    let (r_lo, r_hi) = mult_bounds(receiver_mult);
    let (p_lo, p_hi) = mult_bounds(property_mult);
    if (r_lo == 0 && r_hi == u32::MAX) || (p_lo == 0 && p_hi == u32::MAX) {
        return Multiplicity::ZeroOrMany;
    }
    let lo = saturating_mul_u32(r_lo, p_lo);
    let hi = saturating_mul_u32(r_hi, p_hi);
    if lo == 1 && hi == 1 {
        Multiplicity::PureOne
    } else if lo == 0 && hi == 1 {
        Multiplicity::ZeroOrOne
    } else if lo == 1 && hi == u32::MAX {
        Multiplicity::OneOrMany
    } else if lo == 0 && hi == u32::MAX {
        Multiplicity::ZeroOrMany
    } else {
        Multiplicity::Range { lower: lo, upper: if hi == u32::MAX { None } else { Some(hi) } }
    }
}

/// Least upper bound of two multiplicities.
pub fn mult_lub(a: &Multiplicity, b: &Multiplicity) -> (r: Multiplicity)
    ensures
        r@ == lub(a@, b@),
{
    let (a_lo, a_hi) = mult_bounds(a);
    let (b_lo, b_hi) = mult_bounds(b);
    let lower = if a_lo <= b_lo { a_lo } else { b_lo };
    let upper = if a_hi >= b_hi { a_hi } else { b_hi };
    if lower == 1 && upper == 1 {
        Multiplicity::PureOne
    } else if lower == 0 && upper == 1 {
        Multiplicity::ZeroOrOne
    } else if lower == 1 && upper == u32::MAX {
        Multiplicity::OneOrMany
    } else {
        Multiplicity::Range { lower, upper: if upper == u32::MAX { None } else { Some(upper) } }
    }
}

/// Specificity score of a multiplicity (more specific is higher).
pub fn mult_specificity(m: &Multiplicity) -> (r: i32)
    ensures
        r == specificity(m@),
{
    match m {
        Multiplicity::PureOne => 4,
        Multiplicity::OneOrMany => 2,
        Multiplicity::ZeroOrOne => 3,
        Multiplicity::Range { upper: Some(_), .. } => 3,
        _ => 1,
    }
}

/// Edge-point multiplicity for a milestoned property: lower bound kept,
/// upper bound widened to `*`.
pub fn widen_to_many(mult: &Multiplicity) -> (r: Multiplicity)
    ensures
        r@ == widen(mult@),
{
    match mult {
        Multiplicity::PureOne | Multiplicity::OneOrMany => Multiplicity::OneOrMany,
        Multiplicity::ZeroOrOne | Multiplicity::ZeroOrMany | Multiplicity::Variable(_) => {
            Multiplicity::ZeroOrMany
        },
        Multiplicity::Range { lower, .. } => {
            if *lower == 0 {
                Multiplicity::ZeroOrMany
            } else if *lower == 1 {
                Multiplicity::OneOrMany
            } else {
                Multiplicity::Range { lower: *lower, upper: None }
            }
        },
    }
}

// ---------------------------------------------------------------------------
// Laws
// ---------------------------------------------------------------------------

/// The least upper bound spans exactly the union of the two ranges.
pub proof fn lemma_lub_bounds(a: MultView, b: MultView)
    ensures
        bounds(lub(a, b)).0 == (if bounds(a).0 <= bounds(b).0 { bounds(a).0 } else { bounds(b).0 }),
        bounds(lub(a, b)).1 == (if bounds(a).1 >= bounds(b).1 { bounds(a).1 } else { bounds(b).1 }),
{
}

/// The least upper bound does not depend on argument order.
pub proof fn lemma_lub_commutative(a: MultView, b: MultView)
    ensures
        lub(a, b) == lub(b, a),
{
}

/// Both inputs fit inside their least upper bound.
pub proof fn lemma_lub_is_upper_bound(a: MultView, b: MultView)
    ensures
        mult_compatible(Some(a), lub(a, b)),
        mult_compatible(Some(b), lub(a, b)),
{
}

/// A collection of `n` values satisfies `m`: at least its lower bound,
/// and at most its upper bound unless that is unbounded.
pub open spec fn allows(m: MultView, n: int) -> bool {
    &&& bounds(m).0 <= n
    &&& (bounds(m).1 == u32::MAX || n <= bounds(m).1)
}

/// An argument fits a parameter exactly when every number of values the
/// argument allows, the parameter allows too (for a non-empty argument
/// range, neither side a multiplicity parameter). In particular an
/// argument whose upper bound exceeds the parameter's, or whose lower
/// bound is below it, never fits.
pub proof fn lemma_compatible_is_containment(a: MultView, p: MultView)
    requires
        !(a is Variable),
        !(p is Variable),
    ensures
        bounds(a).1 > bounds(p).1 ==> !mult_compatible(Some(a), p),
        bounds(a).0 < bounds(p).0 ==> !mult_compatible(Some(a), p),
        bounds(a).0 <= bounds(a).1 ==> (mult_compatible(Some(a), p) <==> forall|n: int|
            0 <= n && #[trigger] allows(a, n) ==> allows(p, n)),
{
    if bounds(a).0 <= bounds(a).1 {
        if !mult_compatible(Some(a), p) {
            if bounds(a).0 < bounds(p).0 {
                let n = bounds(a).0 as int;
                assert(allows(a, n) && !allows(p, n));
            } else if bounds(a).1 == u32::MAX {
                let n = if bounds(a).0 > bounds(p).1 + 1 {
                    bounds(a).0 as int
                } else {
                    bounds(p).1 + 1
                };
                assert(allows(a, n) && !allows(p, n));
            } else {
                let n = bounds(a).1 as int;
                assert(allows(a, n) && !allows(p, n));
            }
        }
    }
}

/// Every multiplicity fits inside itself.
pub proof fn lemma_compatible_reflexive(m: MultView)
    ensures
        mult_compatible(Some(m), m),
{
}

/// Fitting is transitive.
pub proof fn lemma_compatible_transitive(a: MultView, b: MultView, c: MultView)
    requires
        !(a is Variable),
        !(b is Variable),
        mult_compatible(Some(a), b),
        mult_compatible(Some(b), c),
    ensures
        mult_compatible(Some(a), c),
{
}

/// `[1]` is the identity of the property-chain product (up to bounds).
pub proof fn lemma_product_identity(m: MultView)
    requires
        !(m is Variable),
    ensures
        bounds(product(m, MultView::PureOne)) == bounds(m),
        bounds(product(MultView::PureOne, m)) == bounds(m),
{
}

/// With no parameters involved, the product does not depend on order.
pub proof fn lemma_product_commutative(a: MultView, b: MultView)
    requires
        !(a is Variable),
        !(b is Variable),
    ensures
        product(a, b) == product(b, a),
{
    assert(bounds(a).0 * bounds(b).0 == bounds(b).0 * bounds(a).0) by (nonlinear_arith);
    assert(bounds(a).1 * bounds(b).1 == bounds(b).1 * bounds(a).1) by (nonlinear_arith);
}

/// Either side `[*]` makes the product `[*]`.
pub proof fn lemma_product_many_absorbs(a: MultView, b: MultView)
    requires
        !(a is Variable),
        !(b is Variable),
        bounds(a) == (0u32, u32::MAX) || bounds(b) == (0u32, u32::MAX),
    ensures
        product(a, b) == MultView::ZeroOrMany,
{
}

/// Away from `[*]`, the product's bounds are the saturated products of the
/// bounds.
pub proof fn lemma_product_bounds(a: MultView, b: MultView)
    requires
        !(a is Variable),
        !(b is Variable),
        bounds(a) != (0u32, u32::MAX),
        bounds(b) != (0u32, u32::MAX),
    ensures
        bounds(product(a, b)) == (
            sat_mul(bounds(a).0, bounds(b).0),
            sat_mul(bounds(a).1, bounds(b).1),
        ),
{
}

/// Widening keeps the lower bound and makes the upper bound unbounded.
pub proof fn lemma_widen_bounds(m: MultView)
    ensures
        bounds(widen(m)) == (bounds(m).0, u32::MAX),
{
}

/// The original range always fits in its widened form.
pub proof fn lemma_widen_contains(m: MultView)
    ensures
        mult_compatible(Some(m), widen(m)),
{
}

} // verus!

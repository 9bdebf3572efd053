//! Helpers of the date-propagation pass: recognising date-typed
//! expressions, the class an expression or property points at, and the
//! milestoned-target properties a class declares or inherits.

use vstd::prelude::*;

use crate::expr::{values_view, ExprKind, FunctionCallData, ValueSpec, ValueSpecView};
use crate::generics::{assoc_view, lookup_binding, names_unique, set_binding};
use crate::milestoning::dates::{dates_for, dates_from, MilestoningDates};
use crate::milestoning::validate::{issues_view, IssueView, MilestoningIssue};
use crate::hierarchy::{first_prop_at, some_property_named};
use crate::ids::{any_id, date_id, ElementId};
use crate::milestoning::str_eq;
use crate::model::{Element, PureModel};
use crate::milestoning::{inherited_temporal_stereotype, MilestoningStereotype};
use crate::nodes::{Class, Property, QualifiedProperty};
use crate::resolve::named_ids;
use crate::types::TypeExpr;

verus! {

/// The element a type expression names, if it is `Named`.
pub open spec fn named_element(t: TypeExpr) -> Option<ElementId> {
    match t {
        TypeExpr::Named { element, .. } => Some(element),
        _ => None,
    }
}

/// The expression is typed `Date`, or is a date literal.
pub open spec fn date_typed(e: ValueSpec) -> bool {
    ||| (e.type_info matches Some(t) && named_element(t.type_expr) == Some(date_id()))
    ||| *e.kind is DateLiteral
}

/// Whether the expression is known to produce a date: its inferred type is
/// `Date`, or it is a date literal.
pub fn is_date_typed_expr(expr: &ValueSpec) -> (r: bool)
    ensures
        r == date_typed(*expr),
{
    match &expr.type_info {
        Some(t) => match &t.type_expr {
            TypeExpr::Named { element, .. } => {
                if *element == date_id() {
                    return true;
                }
            },
            _ => {},
        },
        None => {},
    }
    match &*expr.kind {
        ExprKind::DateLiteral(_) => true,
        _ => false,
    }
}

/// The class a first argument designates: an element reference, or a type
/// reference to a named type.
pub open spec fn designated_class(args: Seq<ValueSpec>) -> Option<ElementId> {
    if args.len() == 0 {
        None
    } else {
        match *args[0].kind {
            ExprKind::PackageableElementRef { element } => Some(element),
            ExprKind::TypeReference { type_expr } => named_element(type_expr),
            _ => None,
        }
    }
}

/// The class designated by the first argument (`getAll(Class, ...)`
/// style), if any.
pub fn class_id_of_first_arg(args: &[ValueSpec]) -> (r: Option<ElementId>)
    ensures
        r == designated_class(args@),
{
    if args.len() == 0 {
        return None;
    }
    match &*args[0].kind {
        ExprKind::PackageableElementRef { element } => Some(*element),
        ExprKind::TypeReference { type_expr } => match type_expr {
            TypeExpr::Named { element, .. } => Some(*element),
            _ => None,
        },
        _ => None,
    }
}

/// The element of an expression's inferred type, when it is `Named`.
pub fn resolved_class_of(expr: &ValueSpec) -> (r: Option<ElementId>)
    ensures
        r == match expr.type_info {
            Some(t) => named_element(t.type_expr),
            None => None,
        },
{
    match &expr.type_info {
        Some(t) => match &t.type_expr {
            TypeExpr::Named { element, .. } => Some(*element),
            _ => None,
        },
        None => None,
    }
}

/// The class a property's type names, when it is `Named`.
pub fn target_class_of_property(prop: &Property) -> (r: Option<ElementId>)
    ensures
        r == named_element(prop.type_expr),
{
    match &prop.type_expr {
        TypeExpr::Named { element, .. } => Some(*element),
        _ => None,
    }
}

/// The target of the first of `props` named `name`.
pub open spec fn first_named_target(props: Seq<Property>, name: Seq<char>) -> Option<ElementId> {
    named_element(props[choose|i: int| first_prop_at(props, name, i)].type_expr)
}

/// Where a milestoned-target property `name` of class `id` points: found
/// among the class's moved-aside properties, else depth-first among its
/// class supertypes (the class itself and `Any` excluded), under a given
/// ranking of the hierarchy.
pub open spec fn milestoned_target_r(
    m: PureModel,
    rank: spec_fn(ElementId) -> nat,
    id: ElementId,
    name: Seq<char>,
) -> Option<ElementId>
    decreases rank(id), 1nat, 0nat,
    when m.ranked(rank)
{
    if !m.valid_id(id) {
        None
    } else {
        match m.elem(id) {
            Element::Class(c) => if some_property_named(c.original_milestoned_properties@, name) {
                first_named_target(c.original_milestoned_properties@, name)
            } else if m.direct_supers(id) == named_ids(c.super_types@) {
                milestoned_in(m, rank, named_ids(c.super_types@), id, name, rank(id))
            } else {
                None
            },
            _ => None,
        }
    }
}

/// The first of `s` that yields a milestoned target for `name`.
pub open spec fn milestoned_in(
    m: PureModel,
    rank: spec_fn(ElementId) -> nat,
    s: Seq<ElementId>,
    owner: ElementId,
    name: Seq<char>,
    bound: nat,
) -> Option<ElementId>
    decreases bound, 0nat, s.len(),
    when m.ranked(rank) && forall|k: int| 0 <= k < s.len() ==> rank(#[trigger] s[k]) < bound
{
    if s.len() == 0 {
        None
    } else {
        match milestoned_in(m, rank, s.drop_last(), owner, name, bound) {
            Some(x) => Some(x),
            None => {
                let e = s.last();
                if e != owner && e != any_id() && m.valid_id(e) && m.elem(e) is Class {
                    milestoned_target_r(m, rank, e, name)
                } else {
                    None
                }
            },
        }
    }
}

/// Once a prefix of `s` yields a target, the whole of `s` yields it.
proof fn lemma_milestoned_in_prefix(
    m: PureModel,
    rank: spec_fn(ElementId) -> nat,
    s: Seq<ElementId>,
    n: int,
    owner: ElementId,
    name: Seq<char>,
    bound: nat,
)
    requires
        m.ranked(rank),
        forall|k: int| 0 <= k < s.len() ==> rank(#[trigger] s[k]) < bound,
        0 <= n <= s.len(),
        milestoned_in(m, rank, s.take(n), owner, name, bound) is Some,
    ensures
        milestoned_in(m, rank, s, owner, name, bound) == milestoned_in(
            m,
            rank,
            s.take(n),
            owner,
            name,
            bound,
        ),
    decreases s.len() - n,
{
    if n == s.len() {
        assert(s.take(n) =~= s);
    } else {
        let d = s.drop_last();
        assert(d.take(n) =~= s.take(n));
        assert forall|k: int| 0 <= k < d.len() implies rank(#[trigger] d[k]) < bound by {
            assert(d[k] == s[k]);
        }
        assert forall|k: int| 0 <= k < s.take(n).len() implies rank(#[trigger] s.take(n)[k])
            < bound by {
            assert(s.take(n)[k] == s[k]);
        }
        lemma_milestoned_in_prefix(m, rank, d, n, owner, name, bound);
    }
}

fn find_named_index(props: &Vec<Property>, name: &str) -> (r: Option<usize>)
    ensures
        match r {
            Some(i) => first_prop_at(props@, name@, i as int),
            None => !some_property_named(props@, name@),
        },
{
    let mut i: usize = 0;
    while i < props.len()
        invariant
            i <= props.len(),
            forall|j: int| 0 <= j < i ==> (#[trigger] props@[j]).name@ != name@,
        decreases props.len() - i,
    {
        if str_eq(props[i].name.as_str(), name) {
            return Some(i);
        }
        i = i + 1;
    }
    None
}

fn milestoned_rec(
    model: &PureModel,
    class_id: ElementId,
    class: &Class,
    prop_name: &str,
    Ghost(rank): Ghost<spec_fn(ElementId) -> nat>,
) -> (r: Option<ElementId>)
    requires
        model.ranked(rank),
        model.valid_id(class_id),
        model.elem(class_id) == Element::Class(*class),
    ensures
        r == milestoned_target_r(*model, rank, class_id, prop_name@),
    decreases rank(class_id),
{
    match find_named_index(&class.original_milestoned_properties, prop_name) {
        Some(i) => {
            proof {
                let props = class.original_milestoned_properties@;
                let j = choose|j: int| first_prop_at(props, prop_name@, j);
                assert(first_prop_at(props, prop_name@, j));
                if j < i {
                    assert(props[j].name@ != prop_name@);
                } else if i < j {
                    assert(props[i as int].name@ != prop_name@);
                }
            }
            return target_class_of_property(&class.original_milestoned_properties[i]);
        },
        None => {},
    }
    let sts = &class.super_types;
    let ghost supers = named_ids(sts@);
    let mut i: usize = 0;
    assert(sts@.take(0) =~= Seq::<TypeExpr>::empty());
    while i < sts.len()
        invariant
            model.ranked(rank),
            model.valid_id(class_id),
            model.elem(class_id) == Element::Class(*class),
            !some_property_named(class.original_milestoned_properties@, prop_name@),
            supers == named_ids(sts@),
            supers == model.direct_supers(class_id),
            i <= sts.len(),
            named_ids(sts@.take(i as int)).len() <= supers.len(),
            named_ids(sts@.take(i as int)) == supers.take(
                named_ids(sts@.take(i as int)).len() as int,
            ),
            milestoned_in(
                *model,
                rank,
                named_ids(sts@.take(i as int)),
                class_id,
                prop_name@,
                rank(class_id),
            ) is None,
        decreases sts.len() - i,
    {
        proof {
            crate::resolve::lemma_named_ids_step(sts@, i as int);
            crate::resolve::lemma_named_ids_take(sts@, i + 1);
            crate::resolve::lemma_named_ids_take(sts@, i as int);
            let pre = named_ids(sts@.take(i as int));
            assert forall|k: int| 0 <= k < pre.len() implies rank(#[trigger] pre[k]) < rank(
                class_id,
            ) by {
                assert(pre[k] == supers[k]);
                assert(model.direct_supers(class_id)[k] == supers[k]);
            }
            let nxt = named_ids(sts@.take(i + 1));
            assert forall|k: int| 0 <= k < nxt.len() implies rank(#[trigger] nxt[k]) < rank(
                class_id,
            ) by {
                assert(nxt[k] == supers[k]);
                assert(model.direct_supers(class_id)[k] == supers[k]);
            }
        }
        match &sts[i] {
            TypeExpr::Named { element: sup, .. } => {
                let ghost k = named_ids(sts@.take(i as int)).len() as int;
                assert(named_ids(sts@.take(i + 1))[k] == *sup);
                assert(supers[k] == *sup);
                assert(model.direct_supers(class_id)[k] == *sup);
                proof {
                    let nxt = named_ids(sts@.take(i + 1));
                    assert(nxt.drop_last() =~= named_ids(sts@.take(i as int)));
                    assert(nxt.last() == *sup);
                }
                if *sup != class_id && *sup != any_id() {
                    match model.try_get_element(*sup) {
                        Some(Element::Class(sc)) => {
                            let found = milestoned_rec(model, *sup, sc, prop_name, Ghost(rank));
                            if found.is_some() {
                                proof {
                                    let nxt = named_ids(sts@.take(i + 1));
                                    assert(nxt == supers.take(nxt.len() as int));
                                    lemma_milestoned_in_prefix(
                                        *model,
                                        rank,
                                        supers,
                                        nxt.len() as int,
                                        class_id,
                                        prop_name@,
                                        rank(class_id),
                                    );
                                }
                                return found;
                            }
                        },
                        _ => {},
                    }
                }
            },
            _ => {},
        }
        i = i + 1;
    }
    assert(sts@.take(i as int) =~= sts@);
    None
}

impl PureModel {
    /// Where the milestoned-target property `name` of class `id` points.
    pub open spec fn milestoned_target(&self, id: ElementId, name: Seq<char>) -> Option<ElementId> {
        milestoned_target_r(*self, self.the_rank(), id, name)
    }
}

/// The target class of the milestoned-target property `prop_name` of
/// `class` (the element `class_id`): looked up among the properties that
/// milestoning moved aside, then in the class supertypes.
pub fn find_milestoned_target_property(
    model: &PureModel,
    class_id: ElementId,
    class: &Class,
    prop_name: &str,
) -> (r: Option<ElementId>)
    requires
        model.hierarchy_wf(),
        model.valid_id(class_id),
        model.elem(class_id) == Element::Class(*class),
    ensures
        r == model.milestoned_target(class_id, prop_name@),
{
    milestoned_rec(model, class_id, class, prop_name, Ghost(model.the_rank()))
}


// ---------------------------------------------------------------------------
// Qualified-property targets
// ---------------------------------------------------------------------------

/// `i` is the first qualified property of `qps` named `name` with
/// `arity` parameters.
pub open spec fn first_qp_at(qps: Seq<QualifiedProperty>, name: Seq<char>, arity: int, i: int) -> bool {
    &&& 0 <= i < qps.len()
    &&& qps[i].name@ == name
    &&& qps[i].parameters.len() == arity
    &&& forall|j: int| 0 <= j < i ==> !(#[trigger] qps[j].name@ == name && qps[j].parameters.len() == arity)
}

/// The stereotype the first matching qualified property of class `c`
/// returns: the temporal stereotype of its (named) return class.
pub open spec fn own_qp_target(
    m: PureModel,
    c: Class,
    name: Seq<char>,
    arity: int,
    profile: ElementId,
) -> Option<MilestoningStereotype> {
    if exists|i: int| first_qp_at(c.qualified_properties@, name, arity, i) {
        let i = choose|i: int| first_qp_at(c.qualified_properties@, name, arity, i);
        match named_element(c.qualified_properties@[i].return_type) {
            Some(e) => m.inherited_temporal(e, profile),
            None => None,
        }
    } else {
        None
    }
}

/// Number of supertypes of `id` when it is a class.
pub open spec fn supers_of(m: PureModel, id: ElementId) -> int {
    if m.valid_id(id) {
        match m.elem(id) {
            Element::Class(c) => c.super_types.len() as int,
            _ => 0,
        }
    } else {
        0
    }
}

/// The target stereotype of the qualified property `name` with `arity`
/// extra arguments on class `id`: the class's own first matching
/// property when it yields one (checked at `k == 0`), else depth-first
/// among the class supertypes from position `k` on (`Any` excluded).
pub open spec fn qp_target_from(
    m: PureModel,
    rank: spec_fn(ElementId) -> nat,
    id: ElementId,
    name: Seq<char>,
    arity: int,
    profile: ElementId,
    k: int,
) -> Option<MilestoningStereotype>
    decreases rank(id), supers_of(m, id) - k,
    when m.ranked(rank) && 0 <= k
{
    if !m.valid_id(id) {
        None
    } else {
        match m.elem(id) {
            Element::Class(c) => if k == 0 && own_qp_target(m, c, name, arity, profile) is Some {
                own_qp_target(m, c, name, arity, profile)
            } else if k >= c.super_types.len() {
                None
            } else {
                match c.super_types@[k] {
                    TypeExpr::Named { element: e, .. } => {
                        if e != any_id() && m.valid_id(e) && m.elem(e) is Class {
                            proof {
                                crate::generics::lemma_named_ids_member(c.super_types@, k);
                                let j = choose|j: int|
                                    0 <= j < named_ids(c.super_types@).len() && #[trigger] named_ids(
                                        c.super_types@,
                                    )[j] == e;
                                assert(m.direct_supers(id)[j] == e);
                            }
                            match qp_target_from(m, rank, e, name, arity, profile, 0) {
                                Some(s) => Some(s),
                                None => qp_target_from(m, rank, id, name, arity, profile, k + 1),
                            }
                        } else {
                            qp_target_from(m, rank, id, name, arity, profile, k + 1)
                        }
                    },
                    _ => qp_target_from(m, rank, id, name, arity, profile, k + 1),
                }
            },
            _ => None,
        }
    }
}

impl PureModel {
    /// The target stereotype of qualified property `name` (with `arity`
    /// arguments after the receiver) on class `id` or its ancestors.
    pub open spec fn qp_target(&self, id: ElementId, name: Seq<char>, arity: int, profile: ElementId) -> Option<
        MilestoningStereotype,
    > {
        qp_target_from(*self, self.the_rank(), id, name, arity, profile, 0)
    }
}

fn find_qp_index(qps: &Vec<QualifiedProperty>, name: &str, arity: usize) -> (r: Option<usize>)
    ensures
        match r {
            Some(i) => first_qp_at(qps@, name@, arity as int, i as int),
            None => forall|i: int| !first_qp_at(qps@, name@, arity as int, i),
        },
{
    let mut i: usize = 0;
    while i < qps.len()
        invariant
            i <= qps.len(),
            forall|j: int| 0 <= j < i ==> !(#[trigger] qps@[j].name@ == name@ && qps@[j].parameters.len() == arity),
        decreases qps.len() - i,
    {
        if str_eq(qps[i].name.as_str(), name) && qps[i].parameters.len() == arity {
            return Some(i);
        }
        i = i + 1;
    }
    None
}

fn qp_target_rec(
    model: &PureModel,
    class_id: ElementId,
    class: &Class,
    qp_name: &str,
    extra_arity: usize,
    temporal_profile: ElementId,
    Ghost(rank): Ghost<spec_fn(ElementId) -> nat>,
) -> (r: Option<MilestoningStereotype>)
    requires
        model.ranked(rank),
        model.hierarchy_wf(),
        rank == model.the_rank(),
        model.valid_id(class_id),
        model.elem(class_id) == Element::Class(*class),
    ensures
        r == qp_target_from(*model, rank, class_id, qp_name@, extra_arity as int, temporal_profile, 0),
    decreases rank(class_id),
{
    let ghost own = own_qp_target(*model, *class, qp_name@, extra_arity as int, temporal_profile);
    match find_qp_index(&class.qualified_properties, qp_name, extra_arity) {
        Some(i) => {
            proof {
                let qps = class.qualified_properties@;
                let j = choose|j: int| first_qp_at(qps, qp_name@, extra_arity as int, j);
                if j < i {
                    assert(!(qps[j].name@ == qp_name@ && qps[j].parameters.len() == extra_arity));
                } else if i < j {
                    assert(!(qps[i as int].name@ == qp_name@ && qps[i as int].parameters.len() == extra_arity));
                }
            }
            match &class.qualified_properties[i].return_type {
                TypeExpr::Named { element, .. } => {
                    let s = inherited_temporal_stereotype(model, *element, temporal_profile);
                    if s.is_some() {
                        return s;
                    }
                },
                _ => {},
            }
        },
        None => {},
    }
    assert(!(own is Some));
    let sts = &class.super_types;
    let mut k: usize = 0;
    while k < sts.len()
        invariant
            model.ranked(rank),
            model.hierarchy_wf(),
            rank == model.the_rank(),
            model.valid_id(class_id),
            model.elem(class_id) == Element::Class(*class),
            sts == &class.super_types,
            !(own is Some),
            own == own_qp_target(*model, *class, qp_name@, extra_arity as int, temporal_profile),
            k <= sts.len(),
            qp_target_from(*model, rank, class_id, qp_name@, extra_arity as int, temporal_profile, 0)
                == qp_target_from(*model, rank, class_id, qp_name@, extra_arity as int, temporal_profile, k as int),
        decreases sts.len() - k,
    {
        match &sts[k] {
            TypeExpr::Named { element, .. } => {
                if *element != any_id() {
                    match model.try_get_element(*element) {
                        Some(Element::Class(parent)) => {
                            proof {
                                crate::generics::lemma_named_ids_member(class.super_types@, k as int);
                                let j = choose|j: int|
                                    0 <= j < named_ids(class.super_types@).len() && #[trigger] named_ids(
                                        class.super_types@,
                                    )[j] == *element;
                                assert(model.direct_supers(class_id)[j] == *element);
                            }
                            let found = qp_target_rec(
                                model,
                                *element,
                                parent,
                                qp_name,
                                extra_arity,
                                temporal_profile,
                                Ghost(rank),
                            );
                            if found.is_some() {
                                return found;
                            }
                        },
                        _ => {},
                    }
                }
            },
            _ => {},
        }
        k = k + 1;
    }
    None
}

/// The temporal stereotype that the qualified property `qp_name`, taking
/// `extra_arity` arguments after the receiver, returns on `class` (the
/// element `class_id`) or on one of its supertypes: the stereotype of the
/// class the property returns; `None` for a property that is not
/// milestoning-generated.
pub fn find_qp_target_stereotype(
    model: &PureModel,
    class_id: ElementId,
    class: &Class,
    qp_name: &str,
    extra_arity: usize,
    temporal_profile: ElementId,
) -> (r: Option<MilestoningStereotype>)
    requires
        model.hierarchy_wf(),
        model.valid_id(class_id),
        model.elem(class_id) == Element::Class(*class),
    ensures
        r == model.qp_target(class_id, qp_name@, extra_arity as int, temporal_profile),
{
    qp_target_rec(model, class_id, class, qp_name, extra_arity, temporal_profile, Ghost(model.the_rank()))
}


// ---------------------------------------------------------------------------
// Propagation scope
// ---------------------------------------------------------------------------

/// View of a dates carrier: `(business date, processing date)`.
pub type DatesView = (Option<ValueSpecView>, Option<ValueSpecView>);

/// A stack of frames binding variable names to the milestoning dates in
/// scope for them; the innermost frame is last.
#[derive(Debug)]
pub struct PropagationScope {
    pub frames: Vec<Vec<(String, MilestoningDates)>>,
}

impl PropagationScope {
    /// Each frame binds a name at most once.
    pub open spec fn wf(&self) -> bool {
        forall|i: int| 0 <= i < self.frames.len() ==> names_unique(#[trigger] self.frames@[i]@)
    }

    /// The frames as maps, outermost first.
    pub open spec fn frames_view(&self) -> Seq<Map<Seq<char>, DatesView>> {
        self.frames@.map_values(|f: Vec<(String, MilestoningDates)>| assoc_view(f@))
    }

    /// A scope with one empty frame.
    pub fn new() -> (r: PropagationScope)
        ensures
            r.wf(),
            r.frames_view() == seq![Map::<Seq<char>, DatesView>::empty()],
    {
        let f: Vec<(String, MilestoningDates)> = Vec::new();
        let r = PropagationScope { frames: vec![f] };
        assert(assoc_view(r.frames@[0]@) =~= Map::<Seq<char>, DatesView>::empty());
        assert(r.frames_view() =~= seq![Map::<Seq<char>, DatesView>::empty()]);
        r
    }

    /// Opens a new innermost frame.
    pub fn push(&mut self)
        requires
            old(self).wf(),
        ensures
            final(self).wf(),
            final(self).frames_view() == old(self).frames_view().push(Map::empty()),
    {
        let f: Vec<(String, MilestoningDates)> = Vec::new();
        let ghost before = self.frames@;
        self.frames.push(f);
        proof {
            assert(assoc_view(self.frames@[before.len() as int]@) =~= Map::<Seq<char>, DatesView>::empty());
            assert forall|i: int| 0 <= i < self.frames.len() implies names_unique(#[trigger] self.frames@[i]@) by {
                if i < before.len() {
                    assert(self.frames@[i] == before[i]);
                }
            }
            assert(self.frames_view() =~= old(self).frames_view().push(Map::empty()));
        }
    }

    /// Binds `name` to `dates` in the innermost frame (when there is one).
    pub fn bind(&mut self, name: String, dates: MilestoningDates)
        requires
            old(self).wf(),
        ensures
            final(self).wf(),
            final(self).frames_view() == if old(self).frames@.len() == 0 {
                old(self).frames_view()
            } else {
                old(self).frames_view().update(
                    old(self).frames@.len() - 1,
                    old(self).frames_view().last().insert(name@, dates@),
                )
            },
    {
        let n = self.frames.len();
        if n == 0 {
            return;
        }
        let ghost before = self.frames@;
        let mut top: Vec<(String, MilestoningDates)> = Vec::new();
        std::mem::swap(&mut top, &mut self.frames[n - 1]);
        assert(top@ == before[n - 1]@);
        set_binding(&mut top, name, dates);
        self.frames.set(n - 1, top);
        proof {
            assert forall|i: int| 0 <= i < self.frames.len() implies names_unique(#[trigger] self.frames@[i]@) by {
                if i < n - 1 {
                    assert(self.frames@[i] == before[i]);
                }
            }
            assert(self.frames_view() =~= old(self).frames_view().update(
                n - 1,
                old(self).frames_view().last().insert(name@, dates@),
            ));
        }
    }

    /// The dates bound to `name` in the innermost frame that binds it.
    pub fn lookup(&self, name: &str) -> (r: Option<&MilestoningDates>)
        requires
            self.wf(),
        ensures
            match r {
                Some(d) => scope_lookup(self.frames_view(), name@) == Some(d@),
                None => scope_lookup(self.frames_view(), name@) is None,
            },
    {
        let mut i = self.frames.len();
        assert(self.frames_view().take(i as int) =~= self.frames_view());
        while i > 0
            invariant
                self.wf(),
                i <= self.frames.len(),
                scope_lookup(self.frames_view(), name@) == scope_lookup(self.frames_view().take(i as int), name@),
            decreases i,
        {
            let ghost fv = self.frames_view().take(i as int);
            assert(fv.drop_last() =~= self.frames_view().take(i - 1));
            assert(fv.last() == assoc_view(self.frames@[i - 1]@));
            match lookup_binding(&self.frames[i - 1], name) {
                Some(d) => {
                    return Some(d);
                },
                None => {},
            }
            i = i - 1;
        }
        None
    }
}

/// The dates bound to `name` in the innermost of `frames` binding it.
pub open spec fn scope_lookup(frames: Seq<Map<Seq<char>, DatesView>>, name: Seq<char>) -> Option<DatesView>
    decreases frames.len(),
{
    if frames.len() == 0 {
        None
    } else if frames.last().contains_key(name) {
        Some(frames.last()[name])
    } else {
        scope_lookup(frames.drop_last(), name)
    }
}


// ---------------------------------------------------------------------------
// Date-source detection
// ---------------------------------------------------------------------------

/// The calls whose lambda parameters see the dates of their source.
pub open spec fn scoped_lambda_name(n: Seq<char>) -> bool {
    n == "filter"@ || n == "map"@ || n == "subType"@ || n == "exists"@ || n == "forAll"@ || n
        == "first"@ || n == "removeDuplicates"@
}

/// Every expression of `s` is date-typed.
pub open spec fn all_date_typed(s: Seq<ValueSpec>) -> bool {
    forall|i: int| 0 <= i < s.len() ==> date_typed(#[trigger] s[i])
}

/// The class of an expression's inferred type, when it is `Named`.
pub open spec fn receiver_class(e: ValueSpec) -> Option<ElementId> {
    match e.type_info {
        Some(t) => named_element(t.type_expr),
        None => None,
    }
}

/// Views of an optional dates carrier.
pub open spec fn opt_dates_view(d: Option<MilestoningDates>) -> Option<DatesView> {
    match d {
        Some(x) => Some(x@),
        None => None,
    }
}

/// The milestoning dates in scope for the value of `e`: a variable's
/// binding in `scope`; the dates of a call (`detect_in_call`) or of a
/// property access (`detect_in_member_call`); none otherwise.
pub open spec fn detect_dates(
    m: PureModel,
    profile: ElementId,
    e: ValueSpec,
    scope: Seq<Map<Seq<char>, DatesView>>,
) -> Option<DatesView>
    decreases e,
{
    match *e.kind {
        ExprKind::Variable { name } => scope_lookup(scope, name@),
        ExprKind::FunctionCall(d) => detect_in_call(m, profile, d, scope),
        ExprKind::QualifiedPropertyCall(d) => detect_in_member_call(m, profile, d, scope),
        ExprKind::PropertyCall(d) => detect_in_member_call(m, profile, d, scope),
        _ => None,
    }
}

/// The dates of a call: `getAll(Class, dates...)` with one or two dates
/// gives the dates it was given (by the class's stereotype); a range query
/// gives none; `filter`, `map` and the like pass on the dates of their
/// source.
pub open spec fn detect_in_call(
    m: PureModel,
    profile: ElementId,
    d: FunctionCallData,
    scope: Seq<Map<Seq<char>, DatesView>>,
) -> Option<DatesView>
    decreases d,
{
    let args = d.arguments@;
    let n = d.function_name@;
    if n == "getAll"@ && (args.len() == 2 || args.len() == 3) {
        match designated_class(args) {
            Some(c) => match m.inherited_temporal(c, profile) {
                Some(s) => dates_from(s, values_view(args.subrange(1, args.len() as int))),
                None => None,
            },
            None => None,
        }
    } else if n == "getAllVersionsInRange"@ && args.len() == 3 {
        None
    } else if scoped_lambda_name(n) && args.len() > 0 {
        detect_dates(m, profile, args[0], scope)
    } else {
        None
    }
}

/// `getAll(C, dates...)` on a class `C` that is (or inherits being)
/// milestoned gives exactly the dates it was given, read by `C`'s
/// stereotype: the one date of a business- or processing-temporal class
/// is its business or processing date, and the two dates of a bitemporal
/// class are its processing date then its business date. With the wrong
/// number of dates for the stereotype nothing is detected.
pub proof fn lemma_get_all_gives_its_dates(
    m: PureModel,
    profile: ElementId,
    d: FunctionCallData,
    scope: Seq<Map<Seq<char>, DatesView>>,
    c: ElementId,
    s: MilestoningStereotype,
)
    requires
        d.function_name@ == "getAll"@,
        designated_class(d.arguments@) == Some(c),
        m.inherited_temporal(c, profile) == Some(s),
    ensures
        d.arguments.len() == 2 || d.arguments.len() == 3 ==> detect_in_call(m, profile, d, scope)
            == dates_from(s, values_view(d.arguments@.subrange(1, d.arguments.len() as int))),
        d.arguments.len() == 3 && s == MilestoningStereotype::Bitemporal ==> detect_in_call(
            m,
            profile,
            d,
            scope,
        ) == Some::<DatesView>((Some(d.arguments@[2]@), Some(d.arguments@[1]@))),
        d.arguments.len() == 2 && s == MilestoningStereotype::BusinessTemporal ==> detect_in_call(
            m,
            profile,
            d,
            scope,
        ) == Some::<DatesView>((Some(d.arguments@[1]@), None)),
        d.arguments.len() == 2 && s == MilestoningStereotype::ProcessingTemporal ==> detect_in_call(
            m,
            profile,
            d,
            scope,
        ) == Some::<DatesView>((None, Some(d.arguments@[1]@))),
        d.arguments.len() == 2 && s == MilestoningStereotype::Bitemporal ==> detect_in_call(
            m,
            profile,
            d,
            scope,
        ) is None,
        d.arguments.len() == 3 && s != MilestoningStereotype::Bitemporal ==> detect_in_call(
            m,
            profile,
            d,
            scope,
        ) is None,
{
    let args = d.arguments@;
    if args.len() == 2 || args.len() == 3 {
        let dates = values_view(args.subrange(1, args.len() as int));
        assert(dates.len() == args.len() - 1);
        assert(dates[0] == args[1]@);
        if args.len() == 3 {
            assert(dates[1] == args[2]@);
        }
    }
}

/// The dates of a property access: the explicit date arguments of a
/// milestoning-generated qualified property of the receiver's class, else
/// the dates of the receiver.
pub open spec fn detect_in_member_call(
    m: PureModel,
    profile: ElementId,
    d: FunctionCallData,
    scope: Seq<Map<Seq<char>, DatesView>>,
) -> Option<DatesView>
    decreases d,
{
    let args = d.arguments@;
    let explicit = if args.len() >= 2 && all_date_typed(args.subrange(1, args.len() as int)) {
        match receiver_class(args[0]) {
            Some(rc) => if m.valid_id(rc) && m.elem(rc) is Class {
                match m.qp_target(rc, d.function_name@, args.len() - 1, profile) {
                    Some(ts) => dates_from(ts, values_view(args.subrange(1, args.len() as int))),
                    None => None,
                }
            } else {
                None
            },
            None => None,
        }
    } else {
        None
    };
    match explicit {
        Some(x) => Some(x),
        None => if args.len() > 0 {
            detect_dates(m, profile, args[0], scope)
        } else {
            None
        },
    }
}

/// Copies of `args[1..]`.
fn date_arguments(args: &Vec<ValueSpec>) -> (r: Vec<ValueSpec>)
    requires
        args.len() >= 1,
    ensures
        values_view(r@) == values_view(args@.subrange(1, args@.len() as int)),
{
    let mut r: Vec<ValueSpec> = Vec::new();
    let mut i: usize = 1;
    while i < args.len()
        invariant
            1 <= i <= args.len(),
            r.len() == i - 1,
            forall|j: int| 0 <= j < r.len() ==> #[trigger] r@[j]@ == args@[j + 1]@,
        decreases args.len() - i,
    {
        r.push(args[i].duplicate());
        i = i + 1;
    }
    assert(values_view(r@) =~= values_view(args@.subrange(1, args@.len() as int)));
    r
}

fn is_scoped_lambda_call(name: &str) -> (r: bool)
    ensures
        r == scoped_lambda_name(name@),
{
    str_eq(name, "filter") || str_eq(name, "map") || str_eq(name, "subType") || str_eq(name, "exists")
        || str_eq(name, "forAll") || str_eq(name, "first") || str_eq(name, "removeDuplicates")
}

/// The milestoning dates in scope for the value of `expr`, as
/// `detect_dates` describes.
pub fn detect_dates_from_expression(
    model: &PureModel,
    temporal_profile: ElementId,
    expr: &ValueSpec,
    scope: &PropagationScope,
) -> (r: Option<MilestoningDates>)
    requires
        model.hierarchy_wf(),
        scope.wf(),
    ensures
        opt_dates_view(r) == detect_dates(*model, temporal_profile, *expr, scope.frames_view()),
    decreases expr,
{
    match &*expr.kind {
        ExprKind::Variable { name } => match scope.lookup(name.as_str()) {
            Some(d) => Some(d.duplicate()),
            None => None,
        },
        ExprKind::FunctionCall(d) => detect_dates_from_function_call(model, temporal_profile, d, scope),
        ExprKind::QualifiedPropertyCall(d) => detect_dates_from_qp_call(model, temporal_profile, d, scope),
        ExprKind::PropertyCall(d) => detect_dates_from_qp_call(model, temporal_profile, d, scope),
        _ => None,
    }
}

/// The milestoning dates of a call, as `detect_in_call` describes.
pub fn detect_dates_from_function_call(
    model: &PureModel,
    temporal_profile: ElementId,
    data: &FunctionCallData,
    scope: &PropagationScope,
) -> (r: Option<MilestoningDates>)
    requires
        model.hierarchy_wf(),
        scope.wf(),
    ensures
        opt_dates_view(r) == detect_in_call(*model, temporal_profile, *data, scope.frames_view()),
    decreases data,
{
    let n = data.arguments.len();
    let name = data.function_name.as_str();
    if str_eq(name, "getAll") && (n == 2 || n == 3) {
        match class_id_of_first_arg(data.arguments.as_slice()) {
            Some(class_id) => match inherited_temporal_stereotype(model, class_id, temporal_profile) {
                Some(stereo) => {
                    let date_args = date_arguments(&data.arguments);
                    MilestoningDates::from_source(stereo, date_args.as_slice())
                },
                None => None,
            },
            None => None,
        }
    } else if str_eq(name, "getAllVersionsInRange") && n == 3 {
        None
    } else if is_scoped_lambda_call(name) && n > 0 {
        proof {
            vstd::std_specs::vec::axiom_vec_index_decreases(data.arguments, 0);
        }
        detect_dates_from_expression(model, temporal_profile, &data.arguments[0], scope)
    } else {
        None
    }
}

/// The milestoning dates of a property access, as
/// `detect_in_member_call` describes.
pub fn detect_dates_from_qp_call(
    model: &PureModel,
    temporal_profile: ElementId,
    data: &FunctionCallData,
    scope: &PropagationScope,
) -> (r: Option<MilestoningDates>)
    requires
        model.hierarchy_wf(),
        scope.wf(),
    ensures
        opt_dates_view(r) == detect_in_member_call(*model, temporal_profile, *data, scope.frames_view()),
    decreases data,
{
    let n = data.arguments.len();
    let ghost args = data.arguments@;
    if n >= 2 {
        let mut all = true;
        let mut i: usize = 1;
        while i < n
            invariant
                n == data.arguments.len(),
                1 <= i <= n,
                all <==> forall|j: int| 1 <= j < i ==> date_typed(#[trigger] data.arguments@[j]),
            decreases n - i,
        {
            if !is_date_typed_expr(&data.arguments[i]) {
                all = false;
            }
            i = i + 1;
        }
        proof {
            let sub = args.subrange(1, n as int);
            assert(all <==> all_date_typed(sub)) by {
                if all {
                    assert forall|j: int| 0 <= j < sub.len() implies date_typed(#[trigger] sub[j]) by {
                        assert(sub[j] == args[j + 1]);
                    }
                } else {
                    let j = choose|j: int| 1 <= j < n && !date_typed(#[trigger] data.arguments@[j]);
                    assert(sub[j - 1] == args[j]);
                }
            }
        }
        if all {
            match resolved_class_of(&data.arguments[0]) {
                Some(rc) => match model.try_get_element(rc) {
                    Some(Element::Class(c)) => {
                        match find_qp_target_stereotype(
                            model,
                            rc,
                            c,
                            data.function_name.as_str(),
                            n - 1,
                            temporal_profile,
                        ) {
                            Some(ts) => {
                                let date_args = date_arguments(&data.arguments);
                                match MilestoningDates::from_source(ts, date_args.as_slice()) {
                                    Some(x) => {
                                        return Some(x);
                                    },
                                    None => {},
                                }
                            },
                            None => {},
                        }
                    },
                    _ => {},
                },
                None => {},
            }
        }
    }
    if n > 0 {
        proof {
            vstd::std_specs::vec::axiom_vec_index_decreases(data.arguments, 0);
        }
        detect_dates_from_expression(model, temporal_profile, &data.arguments[0], scope)
    } else {
        None
    }
}


// ---------------------------------------------------------------------------
// Injecting dates into a milestoned property access
// ---------------------------------------------------------------------------

/// The call data of a property access, with whether it is qualified.
pub open spec fn member_call(k: ExprKind) -> Option<(FunctionCallData, bool)> {
    match k {
        ExprKind::PropertyCall(d) => Some((d, false)),
        ExprKind::QualifiedPropertyCall(d) => Some((d, true)),
        _ => None,
    }
}

/// For a property access that needs injected dates, the receiver's class
/// and the temporal stereotype of the property's target class: the access
/// must have a receiver (and, when qualified, no argument after it); the
/// receiver's inferred type must be a class whose (own or inherited)
/// moved-aside property of this name targets a milestoned class.
pub open spec fn inject_target(m: PureModel, profile: ElementId, k: ExprKind) -> Option<
    (ElementId, MilestoningStereotype),
> {
    match member_call(k) {
        Some((d, qualified)) => {
            let args = d.arguments@;
            if args.len() == 0 || (qualified && args.len() > 1) {
                None
            } else {
                match receiver_class(args[0]) {
                    Some(rc) => if m.valid_id(rc) && m.elem(rc) is Class {
                        match m.milestoned_target(rc, d.function_name@) {
                            Some(t) => match m.inherited_temporal(t, profile) {
                                Some(ts) => Some((rc, ts)),
                                None => None,
                            },
                            None => None,
                        }
                    } else {
                        None
                    },
                    None => None,
                }
            }
        },
        None => None,
    }
}

/// Number of dates a class of stereotype `s` needs.
pub open spec fn dates_needed(s: MilestoningStereotype) -> u8 {
    match s {
        MilestoningStereotype::Bitemporal => 2,
        _ => 1,
    }
}

/// Every chunk's node and element arenas line up.
pub open spec fn chunks_parallel(m: PureModel) -> bool {
    forall|c: int| 0 <= c < m.chunks.len() ==> (#[trigger] m.chunks@[c]).parallel()
}

/// Rewrites a property access on a milestoned-target property that lacks
/// its dates into a qualified-property call carrying the dates in scope
/// for its receiver; reports a missing date context when no dates are in
/// scope. Any other expression is left as it is.
pub fn try_inject_dates_on_property_call(
    model: &PureModel,
    temporal_profile: ElementId,
    kind: &mut ExprKind,
    scope: &PropagationScope,
    errors: &mut Vec<MilestoningIssue>,
)
    requires
        model.hierarchy_wf(),
        chunks_parallel(*model),
        scope.wf(),
    ensures
        match inject_target(*model, temporal_profile, *old(kind)) {
            None => *final(kind) == *old(kind) && issues_view(final(errors)@) == issues_view(old(errors)@),
            Some((rc, ts)) => {
                let d = (member_call(*old(kind))->0).0;
                let receiver = d.arguments@[0];
                match detect_dates(*model, temporal_profile, receiver, scope.frames_view()) {
                    None => *final(kind) == *old(kind) && issues_view(final(errors)@) == issues_view(
                        old(errors)@,
                    ).push(
                        IssueView::MissingDateContext {
                            class_name: model.node(rc).name@,
                            property_name: d.function_name@,
                            expected_dates: dates_needed(ts),
                            source_info: receiver.source_info@,
                        },
                    ),
                    Some(dd) => issues_view(final(errors)@) == issues_view(old(errors)@) && match dates_for(
                        dd,
                        ts,
                    ) {
                        None => *final(kind) == *old(kind),
                        Some(inj) => match *final(kind) {
                            ExprKind::QualifiedPropertyCall(d2) => {
                                &&& d2.function is None
                                &&& d2.function_name@ == d.function_name@
                                &&& values_view(d2.arguments@) == seq![receiver@] + inj
                            },
                            _ => false,
                        },
                    },
                }
            },
        },
{
    let ghost k0 = *kind;
    let (prop_name, receiver, arity, is_qualified) = match &*kind {
        ExprKind::PropertyCall(d) => {
            if d.arguments.len() == 0 {
                return;
            }
            (d.function_name.clone(), d.arguments[0].duplicate(), d.arguments.len(), false)
        },
        ExprKind::QualifiedPropertyCall(d) => {
            if d.arguments.len() == 0 {
                return;
            }
            (d.function_name.clone(), d.arguments[0].duplicate(), d.arguments.len(), true)
        },
        _ => {
            return;
        },
    };
    let ghost d0 = (member_call(k0)->0).0;
    assert(prop_name@ == d0.function_name@);
    assert(receiver@ == d0.arguments@[0]@);
    if is_qualified && arity > 1 {
        return;
    }
    let rc = match resolved_class_of(&receiver) {
        Some(rc) => rc,
        None => {
            return;
        },
    };
    let receiver_class = match model.try_get_element(rc) {
        Some(Element::Class(c)) => c,
        _ => {
            return;
        },
    };
    let target = match find_milestoned_target_property(model, rc, receiver_class, prop_name.as_str()) {
        Some(t) => t,
        None => {
            return;
        },
    };
    let target_stereo = match inherited_temporal_stereotype(model, target, temporal_profile) {
        Some(s) => s,
        None => {
            return;
        },
    };
    proof {
        lemma_detect_dates_view(*model, temporal_profile, receiver, d0.arguments@[0], scope.frames_view());
    }
    let dates = match detect_dates_from_expression(model, temporal_profile, &receiver, scope) {
        Some(d) => d,
        None => {
            let expected_dates: u8 = match target_stereo {
                MilestoningStereotype::Bitemporal => 2,
                _ => 1,
            };
            let chunk = &model.chunks[rc.chunk_id as usize];
            assert(chunk.parallel());
            let class_name = chunk.nodes.items[rc.local_idx as usize].name.clone();
            errors.push(
                MilestoningIssue::MissingDateContext {
                    class_name,
                    property_name: prop_name,
                    expected_dates,
                    source_info: receiver.source_info.duplicate(),
                },
            );
            return;
        },
    };
    let injection = match dates.for_target_stereotype(target_stereo) {
        Some(v) => v,
        None => {
            return;
        },
    };
    let ghost r0 = receiver@;
    let mut new_args: Vec<ValueSpec> = Vec::new();
    new_args.push(receiver);
    let mut i: usize = 0;
    while i < injection.len()
        invariant
            i <= injection.len(),
            new_args.len() == i + 1,
            new_args@[0]@ == r0,
            forall|j: int| 0 <= j < i ==> #[trigger] new_args@[j + 1]@ == injection@[j]@,
        decreases injection.len() - i,
    {
        new_args.push(injection[i].duplicate());
        i = i + 1;
    }
    proof {
        let lhs = values_view(new_args@);
        let rhs = seq![r0] + values_view(injection@);
        assert(lhs.len() == rhs.len());
        assert forall|k: int| 0 <= k < lhs.len() implies lhs[k] == rhs[k] by {
            assert(lhs[k] == new_args@[k]@);
            if k > 0 {
                assert(new_args@[(k - 1) + 1]@ == injection@[k - 1]@);
                assert(rhs[k] == values_view(injection@)[k - 1]);
            }
        }
        assert(lhs =~= rhs);
    }
    *kind = ExprKind::QualifiedPropertyCall(
        FunctionCallData { function: None, function_name: prop_name, arguments: new_args },
    );
}

/// Date detection depends only on the view of the expression.
pub proof fn lemma_detect_dates_view(
    m: PureModel,
    profile: ElementId,
    a: ValueSpec,
    b: ValueSpec,
    scope: Seq<Map<Seq<char>, DatesView>>,
)
    requires
        a@ == b@,
    ensures
        detect_dates(m, profile, a, scope) == detect_dates(m, profile, b, scope),
{
}

} // verus!

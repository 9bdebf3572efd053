//! Declaration-side checks of milestoned classes: at most one temporal
//! stereotype, no user property named like a synthesized one, matching
//! stereotypes along the hierarchy, and no clash with a synthesized
//! edge-point name. Each check appends its findings to a list.

use vstd::prelude::*;

use crate::expr::{DateValue, ExprKind, ValueSpec};
use crate::ids::ElementId;
use crate::milestoning::{
    direct_temporal, direct_temporal_stereotypes, reserved_names, reserved_property_names_for,
    str_eq, strs_view, MilestoningStereotype,
};
use crate::model::{Element, ModelChunk, PureModel};
use crate::nodes::{Class, Constraint, Property, QualifiedProperty, StereotypeRef};
use crate::types::{source_view, SourceInfo, SourceInfoView};

verus! {

/// A problem found on a milestoned class.
#[derive(Debug)]
pub enum MilestoningIssue {
    /// The class carries more than one temporal stereotype.
    StereotypeConflict {
        class_name: String,
        stereotypes: Vec<MilestoningStereotype>,
        source_info: SourceInfo,
    },
    /// A declared property uses a name that milestoning reserves.
    ReservedPropertyName {
        class_name: String,
        property_name: String,
        stereotype: MilestoningStereotype,
        source_info: SourceInfo,
    },
    /// The class and a direct supertype carry different temporal
    /// stereotypes.
    HierarchyMismatch {
        class_name: String,
        own_stereotype: MilestoningStereotype,
        super_class_name: String,
        super_stereotype: MilestoningStereotype,
        source_info: SourceInfo,
    },
    /// A declared property has the name of a synthesized edge-point or
    /// range property.
    EdgePointCollision {
        class_name: String,
        user_property_name: String,
        synthesized_name: String,
        source_info: SourceInfo,
    },
    /// `%latest` outside an argument of a milestoning function or a
    /// generated milestoning qualified property.
    LatestOutsideMilestoningContext { context: String, source_info: SourceInfo },
    /// `%latest` as a bound of a range query (`arg_position` 1 is the
    /// start, 2 the end).
    LatestNotAllowedInRange { arg_position: u8, source_info: SourceInfo },
    /// A milestoned property accessed with no milestoning date in scope.
    MissingDateContext {
        class_name: String,
        property_name: String,
        expected_dates: u8,
        source_info: SourceInfo,
    },
}

/// View of a [`MilestoningIssue`].
pub enum IssueView {
    StereotypeConflict {
        class_name: Seq<char>,
        stereotypes: Seq<MilestoningStereotype>,
        source_info: SourceInfoView,
    },
    ReservedPropertyName {
        class_name: Seq<char>,
        property_name: Seq<char>,
        stereotype: MilestoningStereotype,
        source_info: SourceInfoView,
    },
    HierarchyMismatch {
        class_name: Seq<char>,
        own_stereotype: MilestoningStereotype,
        super_class_name: Seq<char>,
        super_stereotype: MilestoningStereotype,
        source_info: SourceInfoView,
    },
    EdgePointCollision {
        class_name: Seq<char>,
        user_property_name: Seq<char>,
        synthesized_name: Seq<char>,
        source_info: SourceInfoView,
    },
    LatestOutsideMilestoningContext { context: Seq<char>, source_info: SourceInfoView },
    LatestNotAllowedInRange { arg_position: u8, source_info: SourceInfoView },
    MissingDateContext {
        class_name: Seq<char>,
        property_name: Seq<char>,
        expected_dates: u8,
        source_info: SourceInfoView,
    },
}

impl View for MilestoningIssue {
    type V = IssueView;

    open spec fn view(&self) -> IssueView {
        match self {
            MilestoningIssue::StereotypeConflict { class_name, stereotypes, source_info } =>
                IssueView::StereotypeConflict {
                class_name: class_name@,
                stereotypes: stereotypes@,
                source_info: source_info@,
            },
            MilestoningIssue::ReservedPropertyName {
                class_name,
                property_name,
                stereotype,
                source_info,
            } => IssueView::ReservedPropertyName {
                class_name: class_name@,
                property_name: property_name@,
                stereotype: *stereotype,
                source_info: source_info@,
            },
            MilestoningIssue::HierarchyMismatch {
                class_name,
                own_stereotype,
                super_class_name,
                super_stereotype,
                source_info,
            } => IssueView::HierarchyMismatch {
                class_name: class_name@,
                own_stereotype: *own_stereotype,
                super_class_name: super_class_name@,
                super_stereotype: *super_stereotype,
                source_info: source_info@,
            },
            MilestoningIssue::EdgePointCollision {
                class_name,
                user_property_name,
                synthesized_name,
                source_info,
            } => IssueView::EdgePointCollision {
                class_name: class_name@,
                user_property_name: user_property_name@,
                synthesized_name: synthesized_name@,
                source_info: source_info@,
            },
            MilestoningIssue::LatestOutsideMilestoningContext { context, source_info } =>
                IssueView::LatestOutsideMilestoningContext {
                context: context@,
                source_info: source_info@,
            },
            MilestoningIssue::LatestNotAllowedInRange { arg_position, source_info } =>
                IssueView::LatestNotAllowedInRange {
                arg_position: *arg_position,
                source_info: source_info@,
            },
            MilestoningIssue::MissingDateContext {
                class_name,
                property_name,
                expected_dates,
                source_info,
            } => IssueView::MissingDateContext {
                class_name: class_name@,
                property_name: property_name@,
                expected_dates: *expected_dates,
                source_info: source_info@,
            },
        }
    }
}

/// Views of a list of issues.
pub open spec fn issues_view(s: Seq<MilestoningIssue>) -> Seq<IssueView> {
    s.map_values(|x: MilestoningIssue| x@)
}

/// The position at which a second distinct temporal stereotype appears.
pub open spec fn second_kind_at(s: Seq<StereotypeRef>, profile: ElementId) -> Option<int>
    decreases s.len(),
{
    if s.len() == 0 {
        None
    } else {
        match second_kind_at(s.drop_last(), profile) {
            Some(i) => Some(i),
            None => if direct_temporal(s, profile).len() >= 2 {
                Some(s.len() - 1)
            } else {
                None
            },
        }
    }
}

/// Where a conflict is reported: the span of the entry that brought the
/// second stereotype, else the class's.
pub open spec fn conflict_span(s: Seq<StereotypeRef>, profile: ElementId, class_si: SourceInfoView) -> SourceInfoView {
    match second_kind_at(s, profile) {
        Some(i) => match source_view(s[i].source_info) {
            Some(si) => si,
            None => class_si,
        },
        None => class_si,
    }
}

/// The findings of the at-most-one-stereotype check.
pub open spec fn conflict_issues(
    s: Seq<StereotypeRef>,
    profile: ElementId,
    class_name: Seq<char>,
    class_si: SourceInfoView,
) -> Seq<IssueView> {
    if direct_temporal(s, profile).len() >= 2 {
        seq![
            IssueView::StereotypeConflict {
                class_name,
                stereotypes: direct_temporal(s, profile),
                source_info: conflict_span(s, profile, class_si),
            },
        ]
    } else {
        Seq::empty()
    }
}

fn push_issue(errors: &mut Vec<MilestoningIssue>, issue: MilestoningIssue)
    ensures
        issues_view(final(errors)@) == issues_view(old(errors)@).push(issue@),
{
    errors.push(issue);
    assert(issues_view(errors@) =~= issues_view(old(errors)@).push(issue@));
}

/// Reports a class that carries more than one of the temporal
/// stereotypes, listing them in first-occurrence order.
pub fn validate_at_most_one_temporal_stereotype(
    stereotypes: &[StereotypeRef],
    temporal_profile: ElementId,
    class_name: &String,
    class_si: &SourceInfo,
    errors: &mut Vec<MilestoningIssue>,
)
    ensures
        issues_view(final(errors)@) == issues_view(old(errors)@) + conflict_issues(
            stereotypes@,
            temporal_profile,
            class_name@,
            class_si@,
        ),
{
    let mut seen: Vec<MilestoningStereotype> = Vec::new();
    let mut span: Option<SourceInfo> = None;
    let mut i: usize = 0;
    while i < stereotypes.len()
        invariant
            i <= stereotypes@.len(),
            seen@ == direct_temporal(stereotypes@.take(i as int), temporal_profile),
            (second_kind_at(stereotypes@.take(i as int), temporal_profile) is None) <==> seen@.len()
                < 2,
            match second_kind_at(stereotypes@.take(i as int), temporal_profile) {
                Some(j) => 0 <= j < i && (span matches Some(sp) && sp@ == match source_view(
                    stereotypes@[j].source_info,
                ) {
                    Some(si) => si,
                    None => class_si@,
                }),
                None => span is None,
            },
        decreases stereotypes.len() - i,
    {
        let s = &stereotypes[i];
        let ghost pre = stereotypes@.take(i as int);
        let ghost nxt = stereotypes@.take(i + 1);
        assert(nxt.drop_last() =~= pre);
        assert(nxt.last() == stereotypes@[i as int]);
        if s.profile == temporal_profile {
            match MilestoningStereotype::from_value_name(s.value.as_str()) {
                Some(kind) => {
                    let mut present = false;
                    let mut k: usize = 0;
                    while k < seen.len()
                        invariant
                            k <= seen.len(),
                            present <==> exists|x: int| 0 <= x < k && seen@[x] == kind,
                        decreases seen.len() - k,
                    {
                        if seen[k] == kind {
                            present = true;
                        }
                        k = k + 1;
                    }
                    if !present {
                        if seen.len() > 0 && span.is_none() {
                            span = match &s.source_info {
                                Some(si) => Some(si.duplicate()),
                                None => Some(class_si.duplicate()),
                            };
                        }
                        seen.push(kind);
                    }
                },
                None => {},
            }
        }
        proof {
            if second_kind_at(pre, temporal_profile) is Some {
                assert(second_kind_at(nxt, temporal_profile) == second_kind_at(pre, temporal_profile));
            }
        }
        i = i + 1;
    }
    assert(stereotypes@.take(i as int) =~= stereotypes@);
    if seen.len() >= 2 {
        let sp = match span {
            Some(sp) => sp,
            None => class_si.duplicate(),
        };
        push_issue(
            errors,
            MilestoningIssue::StereotypeConflict {
                class_name: class_name.clone(),
                stereotypes: seen,
                source_info: sp,
            },
        );
    } else {
        assert(issues_view(errors@) + conflict_issues(
            stereotypes@,
            temporal_profile,
            class_name@,
            class_si@,
        ) =~= issues_view(errors@));
    }
}

/// The findings of the reserved-name check for properties `props` of a
/// class carrying `kind`: one per property named like a reserved name.
pub open spec fn reserved_issues(props: Seq<Property>, kind: MilestoningStereotype, class_name: Seq<char>) -> Seq<
    IssueView,
>
    decreases props.len(),
{
    if props.len() == 0 {
        Seq::empty()
    } else {
        let prev = reserved_issues(props.drop_last(), kind, class_name);
        let p = props.last();
        if reserved_names(kind).contains(p.name@) {
            prev.push(
                IssueView::ReservedPropertyName {
                    class_name,
                    property_name: p.name@,
                    stereotype: kind,
                    source_info: p.source_info@,
                },
            )
        } else {
            prev
        }
    }
}

/// The findings of the reserved-name check: none when the class carries no
/// temporal stereotype; otherwise, for its first one, every property named
/// like a reserved name.
pub open spec fn reserved_name_issues(
    props: Seq<Property>,
    stereotypes: Seq<StereotypeRef>,
    profile: ElementId,
    class_name: Seq<char>,
) -> Seq<IssueView> {
    let d = direct_temporal(stereotypes, profile);
    if d.len() == 0 {
        Seq::empty()
    } else {
        reserved_issues(props, d[0], class_name)
    }
}

fn is_reserved(reserved: &Vec<&'static str>, name: &str) -> (r: bool)
    ensures
        r == strs_view(reserved@).contains(name@),
{
    let mut i: usize = 0;
    while i < reserved.len()
        invariant
            i <= reserved.len(),
            forall|j: int| 0 <= j < i ==> reserved@[j]@ != name@,
        decreases reserved.len() - i,
    {
        if str_eq(reserved[i], name) {
            assert(strs_view(reserved@)[i as int] == name@);
            return true;
        }
        i = i + 1;
    }
    assert forall|j: int| 0 <= j < strs_view(reserved@).len() implies strs_view(reserved@)[j]
        != name@ by {
        assert(strs_view(reserved@)[j] == reserved@[j]@);
    }
    false
}

/// Reports every property of a milestoned class whose name milestoning
/// reserves for the class's (first) temporal stereotype.
pub fn validate_reserved_property_names(
    properties: &[Property],
    stereotypes: &[StereotypeRef],
    temporal_profile: ElementId,
    class_name: &String,
    errors: &mut Vec<MilestoningIssue>,
)
    ensures
        issues_view(final(errors)@) == issues_view(old(errors)@) + reserved_name_issues(
            properties@,
            stereotypes@,
            temporal_profile,
            class_name@,
        ),
{
    let temporal = direct_temporal_stereotypes(stereotypes, temporal_profile);
    if temporal.len() == 0 {
        assert(issues_view(errors@) + Seq::<IssueView>::empty() =~= issues_view(errors@));
        return;
    }
    let kind = temporal[0];
    let reserved = reserved_property_names_for(kind);
    let ghost start = issues_view(errors@);
    let mut i: usize = 0;
    assert(properties@.take(0) =~= Seq::<Property>::empty());
    assert(start + reserved_issues(properties@.take(0), kind, class_name@) =~= start);
    while i < properties.len()
        invariant
            i <= properties@.len(),
            strs_view(reserved@) == reserved_names(kind),
            issues_view(errors@) == start + reserved_issues(properties@.take(i as int), kind, class_name@),
        decreases properties.len() - i,
    {
        let prop = &properties[i];
        let ghost nxt = properties@.take(i + 1);
        assert(nxt.drop_last() =~= properties@.take(i as int));
        assert(nxt.last() == properties@[i as int]);
        if is_reserved(&reserved, prop.name.as_str()) {
            push_issue(
                errors,
                MilestoningIssue::ReservedPropertyName {
                    class_name: class_name.clone(),
                    property_name: prop.name.clone(),
                    stereotype: kind,
                    source_info: prop.source_info.duplicate(),
                },
            );
            assert(issues_view(errors@) =~= start + reserved_issues(nxt, kind, class_name@));
        }
        i = i + 1;
    }
    assert(properties@.take(i as int) =~= properties@);
}

/// The findings of the hierarchy check: when the class carries a temporal
/// stereotype, one per direct supertype whose (known) stereotype differs.
pub open spec fn mismatch_issues(
    own: MilestoningStereotype,
    supers: Seq<(String, Option<MilestoningStereotype>)>,
    class_name: Seq<char>,
    class_si: SourceInfoView,
) -> Seq<IssueView>
    decreases supers.len(),
{
    if supers.len() == 0 {
        Seq::empty()
    } else {
        let prev = mismatch_issues(own, supers.drop_last(), class_name, class_si);
        match supers.last().1 {
            Some(k) => if k != own {
                prev.push(
                    IssueView::HierarchyMismatch {
                        class_name,
                        own_stereotype: own,
                        super_class_name: supers.last().0@,
                        super_stereotype: k,
                        source_info: class_si,
                    },
                )
            } else {
                prev
            },
            None => prev,
        }
    }
}

/// Reports every direct supertype whose temporal stereotype differs from
/// the class's own (first) one. `super_temporal_stereotypes` pairs each
/// supertype's name with its stereotype, if any.
pub fn validate_temporal_hierarchy_consistency(
    own_stereotypes: &[StereotypeRef],
    super_temporal_stereotypes: &[(String, Option<MilestoningStereotype>)],
    temporal_profile: ElementId,
    class_name: &String,
    class_si: &SourceInfo,
    errors: &mut Vec<MilestoningIssue>,
)
    ensures
        issues_view(final(errors)@) == issues_view(old(errors)@) + {
            let d = direct_temporal(own_stereotypes@, temporal_profile);
            if d.len() == 0 {
                Seq::empty()
            } else {
                mismatch_issues(d[0], super_temporal_stereotypes@, class_name@, class_si@)
            }
        },
{
    let own = direct_temporal_stereotypes(own_stereotypes, temporal_profile);
    if own.len() == 0 {
        assert(issues_view(errors@) + Seq::<IssueView>::empty() =~= issues_view(errors@));
        return;
    }
    let own_kind = own[0];
    let ghost start = issues_view(errors@);
    let mut i: usize = 0;
    let ghost supers = super_temporal_stereotypes@;
    assert(supers.take(0) =~= Seq::<(String, Option<MilestoningStereotype>)>::empty());
    assert(start + mismatch_issues(own_kind, supers.take(0), class_name@, class_si@) =~= start);
    while i < super_temporal_stereotypes.len()
        invariant
            i <= supers.len(),
            supers == super_temporal_stereotypes@,
            issues_view(errors@) == start + mismatch_issues(
                own_kind,
                supers.take(i as int),
                class_name@,
                class_si@,
            ),
        decreases supers.len() - i,
    {
        let entry = &super_temporal_stereotypes[i];
        let ghost nxt = supers.take(i + 1);
        assert(nxt.drop_last() =~= supers.take(i as int));
        assert(nxt.last() == supers[i as int]);
        match entry.1 {
            Some(super_kind) => {
                if super_kind != own_kind {
                    push_issue(
                        errors,
                        MilestoningIssue::HierarchyMismatch {
                            class_name: class_name.clone(),
                            own_stereotype: own_kind,
                            super_class_name: entry.0.clone(),
                            super_stereotype: super_kind,
                            source_info: class_si.duplicate(),
                        },
                    );
                    assert(issues_view(errors@) =~= start + mismatch_issues(
                        own_kind,
                        nxt,
                        class_name@,
                        class_si@,
                    ));
                }
            },
            None => {},
        }
        i = i + 1;
    }
    assert(supers.take(i as int) =~= supers);
}

/// Reports that a declared property has the name of a synthesized
/// edge-point or range property.
pub fn report_edge_point_collision(
    class_name: &String,
    user_property: &Property,
    synthesized_name: &str,
    errors: &mut Vec<MilestoningIssue>,
)
    ensures
        issues_view(final(errors)@) == issues_view(old(errors)@).push(
            IssueView::EdgePointCollision {
                class_name: class_name@,
                user_property_name: user_property.name@,
                synthesized_name: synthesized_name@,
                source_info: user_property.source_info@,
            },
        ),
{
    push_issue(
        errors,
        MilestoningIssue::EdgePointCollision {
            class_name: class_name.clone(),
            user_property_name: user_property.name.clone(),
            synthesized_name: synthesized_name.to_owned(),
            source_info: user_property.source_info.duplicate(),
        },
    );
}


// ---------------------------------------------------------------------------
// `%latest` usage
// ---------------------------------------------------------------------------

/// `e` is the `%latest` literal.
pub open spec fn is_latest(e: ValueSpec) -> bool {
    *e.kind == ExprKind::DateLiteral(DateValue::Latest)
}

/// How the arguments of a call are placed with respect to `%latest`.
#[derive(Clone, Copy, Debug)]
pub enum ArgSlots {
    /// `getAll` / `getAllVersions`: arguments after the first are
    /// milestoning slots.
    Fetch,
    /// `getAllVersionsInRange`: arguments after the first are range
    /// bounds, where `%latest` is refused.
    Range,
    /// A qualified-property call: arguments after the receiver are
    /// milestoning slots.
    Qualified,
    /// Every argument is (`true`) or none is (`false`) a milestoning slot.
    Plain(bool),
}

/// The range-bound position reported for argument `i`.
pub open spec fn bound_position(i: int) -> u8 {
    if 0 <= i <= 255 {
        i as u8
    } else {
        0
    }
}

/// The `%latest` findings in `e`: a `%latest` literal outside a
/// milestoning slot is reported against `context`; calls, lambdas and
/// collections are searched, each argument in its own slot.
pub open spec fn latest_issues(e: ValueSpec, context: Seq<char>, in_slot: bool) -> Seq<IssueView>
    decreases e, 0int,
{
    match *e.kind {
        ExprKind::DateLiteral(DateValue::Latest) => if in_slot {
            Seq::empty()
        } else {
            seq![IssueView::LatestOutsideMilestoningContext { context, source_info: e.source_info@ }]
        },
        ExprKind::FunctionCall(d) => {
            let slots = if d.function_name@ == "getAll"@ || d.function_name@ == "getAllVersions"@ {
                ArgSlots::Fetch
            } else if d.function_name@ == "getAllVersionsInRange"@ {
                ArgSlots::Range
            } else {
                ArgSlots::Plain(false)
            };
            args_latest_issues(d.arguments@, context, slots, d.arguments@.len() as int)
        },
        ExprKind::QualifiedPropertyCall(d) => args_latest_issues(
            d.arguments@,
            context,
            ArgSlots::Qualified,
            d.arguments@.len() as int,
        ),
        ExprKind::PropertyCall(d) => args_latest_issues(
            d.arguments@,
            context,
            ArgSlots::Plain(false),
            d.arguments@.len() as int,
        ),
        ExprKind::Lambda { body, .. } => args_latest_issues(body@, context, ArgSlots::Plain(in_slot), body@.len() as int),
        ExprKind::Collection { elements } => args_latest_issues(
            elements@,
            context,
            ArgSlots::Plain(false),
            elements@.len() as int,
        ),
        _ => Seq::empty(),
    }
}

/// The findings in the first `n` of `args`, placed by `slots`, in order.
pub open spec fn args_latest_issues(args: Seq<ValueSpec>, context: Seq<char>, slots: ArgSlots, n: int) -> Seq<
    IssueView,
>
    decreases args, n,
{
    if n <= 0 || n > args.len() {
        Seq::empty()
    } else {
        let i = n - 1;
        let a = args[i];
        args_latest_issues(args, context, slots, i) + match slots {
            ArgSlots::Fetch => latest_issues(a, context, i > 0),
            ArgSlots::Range => if i > 0 {
                (if is_latest(a) {
                    seq![IssueView::LatestNotAllowedInRange { arg_position: bound_position(i), source_info: a.source_info@ }]
                } else {
                    Seq::empty()
                }) + latest_issues(a, context, false)
            } else {
                latest_issues(a, context, false)
            },
            ArgSlots::Qualified => latest_issues(a, context, i > 0),
            ArgSlots::Plain(b) => latest_issues(a, context, b),
        }
    }
}


fn is_latest_literal(e: &ValueSpec) -> (r: bool)
    ensures
        r == is_latest(*e),
{
    match &*e.kind {
        ExprKind::DateLiteral(DateValue::Latest) => true,
        _ => false,
    }
}

fn walk_args_for_latest(
    args: &Vec<ValueSpec>,
    context: &String,
    slots: ArgSlots,
    errors: &mut Vec<MilestoningIssue>,
)
    ensures
        issues_view(final(errors)@) == issues_view(old(errors)@) + args_latest_issues(
            args@,
            context@,
            slots,
            args@.len() as int,
        ),
    decreases args, 0int,
{
    let ghost start = issues_view(errors@);
    let mut i: usize = 0;
    assert(issues_view(errors@) =~= start + args_latest_issues(args@, context@, slots, 0));
    while i < args.len()
        invariant
            i <= args.len(),
            issues_view(errors@) == start + args_latest_issues(args@, context@, slots, i as int),
        decreases args.len() - i,
    {
        proof {
            vstd::std_specs::vec::axiom_vec_index_decreases(*args, i as int);
        }
        let a = &args[i];
        let ghost before = issues_view(errors@);
        match slots {
            ArgSlots::Fetch => {
                walk_for_latest_validation(a, context, i > 0, errors);
            },
            ArgSlots::Range => {
                if i > 0 {
                    if is_latest_literal(a) {
                        let position: u8 = if i <= 255 {
                            i as u8
                        } else {
                            0
                        };
                        errors.push(
                            MilestoningIssue::LatestNotAllowedInRange {
                                arg_position: position,
                                source_info: a.source_info.duplicate(),
                            },
                        );
                    }
                    let ghost mid = issues_view(errors@);
                    walk_for_latest_validation(a, context, false, errors);
                    proof {
                        assert(issues_view(errors@) =~= before + ((if is_latest(*a) {
                            seq![IssueView::LatestNotAllowedInRange { arg_position: bound_position(i as int), source_info: a.source_info@ }]
                        } else {
                            Seq::empty()
                        }) + latest_issues(*a, context@, false)));
                    }
                } else {
                    walk_for_latest_validation(a, context, false, errors);
                }
            },
            ArgSlots::Qualified => {
                walk_for_latest_validation(a, context, i > 0, errors);
            },
            ArgSlots::Plain(b) => {
                walk_for_latest_validation(a, context, b, errors);
            },
        }
        proof {
            assert(args@[i as int] == *a);
        }
        i = i + 1;
        assert(issues_view(errors@) =~= start + args_latest_issues(args@, context@, slots, i as int));
    }
}

/// Appends a finding for every `%latest` of `expr` that is not in a
/// milestoning slot (`in_slot` tells whether `expr` itself is one), and
/// for every `%latest` given as a range bound.
pub fn walk_for_latest_validation(
    expr: &ValueSpec,
    context: &String,
    in_slot: bool,
    errors: &mut Vec<MilestoningIssue>,
)
    ensures
        issues_view(final(errors)@) == issues_view(old(errors)@) + latest_issues(*expr, context@, in_slot),
    decreases expr, 0int,
{
    let ghost start = issues_view(errors@);
    match &*expr.kind {
        ExprKind::DateLiteral(DateValue::Latest) => {
            if !in_slot {
                errors.push(
                    MilestoningIssue::LatestOutsideMilestoningContext {
                        context: context.clone(),
                        source_info: expr.source_info.duplicate(),
                    },
                );
            }
            assert(issues_view(errors@) =~= start + latest_issues(*expr, context@, in_slot));
        },
        ExprKind::FunctionCall(d) => {
            let slots = if str_eq(d.function_name.as_str(), "getAll") || str_eq(
                d.function_name.as_str(),
                "getAllVersions",
            ) {
                ArgSlots::Fetch
            } else if str_eq(d.function_name.as_str(), "getAllVersionsInRange") {
                ArgSlots::Range
            } else {
                ArgSlots::Plain(false)
            };
            walk_args_for_latest(&d.arguments, context, slots, errors);
        },
        ExprKind::QualifiedPropertyCall(d) => {
            walk_args_for_latest(&d.arguments, context, ArgSlots::Qualified, errors);
        },
        ExprKind::PropertyCall(d) => {
            walk_args_for_latest(&d.arguments, context, ArgSlots::Plain(false), errors);
        },
        ExprKind::Lambda { body, .. } => {
            walk_args_for_latest(body, context, ArgSlots::Plain(in_slot), errors);
        },
        ExprKind::Collection { elements } => {
            walk_args_for_latest(elements, context, ArgSlots::Plain(false), errors);
        },
        _ => {
            assert(issues_view(errors@) =~= start + latest_issues(*expr, context@, in_slot));
        },
    }
}


/// The context a constraint's findings are reported against: its name,
/// or `constraint` for an anonymous one.
pub open spec fn constraint_context(c: Constraint) -> Seq<char> {
    match c.name {
        Some(n) => n@,
        None => "constraint"@,
    }
}

/// Findings in the bodies of the first `n` qualified properties (a
/// property with an empty body is skipped), each against its name.
pub open spec fn qps_latest_issues(qps: Seq<QualifiedProperty>, n: int) -> Seq<IssueView>
    decreases n,
{
    if n <= 0 || n > qps.len() {
        Seq::empty()
    } else {
        let q = qps[n - 1];
        qps_latest_issues(qps, n - 1) + args_latest_issues(q.body@, q.name@, ArgSlots::Plain(false), q.body@.len() as int)
    }
}

/// Findings in the first `n` constraints: the constraint function, then
/// its message.
pub open spec fn constraints_latest_issues(cs: Seq<Constraint>, n: int) -> Seq<IssueView>
    decreases n,
{
    if n <= 0 || n > cs.len() {
        Seq::empty()
    } else {
        let c = cs[n - 1];
        constraints_latest_issues(cs, n - 1) + latest_issues(c.function, constraint_context(c), false) + match c.message {
            Some(msg) => latest_issues(msg, constraint_context(c), false),
            None => Seq::empty(),
        }
    }
}

/// Findings in the default values of the first `n` properties, each
/// against the property's name.
pub open spec fn defaults_latest_issues(ps: Seq<Property>, n: int) -> Seq<IssueView>
    decreases n,
{
    if n <= 0 || n > ps.len() {
        Seq::empty()
    } else {
        let p = ps[n - 1];
        defaults_latest_issues(ps, n - 1) + match p.default_value {
            Some(dv) => latest_issues(dv, p.name@, false),
            None => Seq::empty(),
        }
    }
}

/// Findings in one element named `name`: a function's body (against its
/// name); a class's qualified-property bodies, constraints and property
/// defaults.
pub open spec fn element_latest_issues(name: Seq<char>, e: Element) -> Seq<IssueView> {
    match e {
        Element::Function(f) => args_latest_issues(f.body@, name, ArgSlots::Plain(false), f.body@.len() as int),
        Element::Class(c) => qps_latest_issues(c.qualified_properties@, c.qualified_properties@.len() as int)
            + constraints_latest_issues(c.constraints@, c.constraints@.len() as int) + defaults_latest_issues(
            c.properties@,
            c.properties@.len() as int,
        ),
        _ => Seq::empty(),
    }
}

/// Findings in the first `n` elements of a chunk.
pub open spec fn chunk_latest_issues(ch: ModelChunk, n: int) -> Seq<IssueView>
    decreases n,
{
    if n <= 0 {
        Seq::empty()
    } else {
        chunk_latest_issues(ch, n - 1) + element_latest_issues(
            ch.nodes.items@[n - 1].name@,
            ch.elements.items@[n - 1],
        )
    }
}

/// Findings in the first `n` chunks, chunk after chunk.
pub open spec fn model_latest_issues(chunks: Seq<ModelChunk>, n: int) -> Seq<IssueView>
    decreases n,
{
    if n <= 0 {
        Seq::empty()
    } else {
        model_latest_issues(chunks, n - 1) + chunk_latest_issues(
            chunks[n - 1],
            chunks[n - 1].elements.items.len() as int,
        )
    }
}

fn class_latest(c: &Class, errors: &mut Vec<MilestoningIssue>)
    ensures
        issues_view(final(errors)@) == issues_view(old(errors)@) + element_latest_issues(
            Seq::empty(),
            Element::Class(*c),
        ),
{
    let ghost start = issues_view(errors@);
    let qps = &c.qualified_properties;
    let mut i: usize = 0;
    while i < qps.len()
        invariant
            i <= qps.len(),
            issues_view(errors@) == start + qps_latest_issues(qps@, i as int),
        decreases qps.len() - i,
    {
        let q = &qps[i];
        if q.body.len() > 0 {
            walk_args_for_latest(&q.body, &q.name, ArgSlots::Plain(false), errors);
        } else {
            assert(args_latest_issues(q.body@, q.name@, ArgSlots::Plain(false), 0) =~= Seq::<IssueView>::empty());
        }
        i = i + 1;
        assert(issues_view(errors@) =~= start + qps_latest_issues(qps@, i as int));
    }
    let ghost mid1 = issues_view(errors@);
    let cs = &c.constraints;
    let mut j: usize = 0;
    while j < cs.len()
        invariant
            j <= cs.len(),
            issues_view(errors@) == mid1 + constraints_latest_issues(cs@, j as int),
        decreases cs.len() - j,
    {
        let con = &cs[j];
        let ctx = match &con.name {
            Some(n) => n.clone(),
            None => "constraint".to_owned(),
        };
        walk_for_latest_validation(&con.function, &ctx, false, errors);
        match &con.message {
            Some(msg) => {
                walk_for_latest_validation(msg, &ctx, false, errors);
            },
            None => {},
        }
        j = j + 1;
        assert(issues_view(errors@) =~= mid1 + constraints_latest_issues(cs@, j as int));
    }
    let ghost mid2 = issues_view(errors@);
    let ps = &c.properties;
    let mut k: usize = 0;
    while k < ps.len()
        invariant
            k <= ps.len(),
            issues_view(errors@) == mid2 + defaults_latest_issues(ps@, k as int),
        decreases ps.len() - k,
    {
        let p = &ps[k];
        match &p.default_value {
            Some(dv) => {
                walk_for_latest_validation(dv, &p.name, false, errors);
            },
            None => {},
        }
        k = k + 1;
        assert(issues_view(errors@) =~= mid2 + defaults_latest_issues(ps@, k as int));
    }
    assert(issues_view(errors@) =~= start + element_latest_issues(Seq::empty(), Element::Class(*c)));
}

/// Checks every expression body of the model for misplaced `%latest`:
/// function bodies (reported against the function's name), class
/// qualified-property bodies, constraints and property defaults, chunk
/// by chunk and element by element.
pub fn validate_latest_usage(model: &PureModel, errors: &mut Vec<MilestoningIssue>)
    requires
        forall|c: int| 0 <= c < model.chunks.len() ==> (#[trigger] model.chunks@[c]).parallel(),
    ensures
        issues_view(final(errors)@) == issues_view(old(errors)@) + model_latest_issues(
            model.chunks@,
            model.chunks.len() as int,
        ),
{
    let ghost start = issues_view(errors@);
    let mut ci: usize = 0;
    while ci < model.chunks.len()
        invariant
            ci <= model.chunks.len(),
            forall|c: int| 0 <= c < model.chunks.len() ==> (#[trigger] model.chunks@[c]).parallel(),
            issues_view(errors@) == start + model_latest_issues(model.chunks@, ci as int),
        decreases model.chunks.len() - ci,
    {
        let chunk = &model.chunks[ci];
        assert(chunk.parallel());
        let ghost before = issues_view(errors@);
        let n = chunk.elements.items.len();
        let mut li: usize = 0;
        while li < n
            invariant
                li <= n,
                n == chunk.elements.items.len(),
                chunk.parallel(),
                issues_view(errors@) == before + chunk_latest_issues(*chunk, li as int),
            decreases n - li,
        {
            match &chunk.elements.items[li] {
                Element::Function(f) => {
                    let name = &chunk.nodes.items[li].name;
                    walk_args_for_latest(&f.body, name, ArgSlots::Plain(false), errors);
                },
                Element::Class(c) => {
                    class_latest(c, errors);
                },
                _ => {},
            }
            li = li + 1;
            assert(issues_view(errors@) =~= before + chunk_latest_issues(*chunk, li as int));
        }
        ci = ci + 1;
        assert(issues_view(errors@) =~= start + model_latest_issues(model.chunks@, ci as int));
    }
}

} // verus!

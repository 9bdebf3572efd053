//! Milestoning: the three temporal stereotypes (`businesstemporal`,
//! `processingtemporal`, `bitemporal`), the names and carrier classes they
//! synthesize on a milestoned class, and the stereotype lookups used by the
//! synthesis and propagation passes.

use vstd::prelude::*;
use vstd::string::StrSliceExecFns;
use vstd::string::StringExecFns;

use crate::ids::{any_id, ElementId};
use crate::model::{Element, PureModel};
use crate::nodes::StereotypeRef;
use crate::resolve::named_ids;
use crate::types::TypeExpr;

pub mod dates;
pub mod propagation;
pub mod synthesis;
pub mod validate;

verus! {

/// FQN of the profile that declares the three temporal stereotypes.
pub const TEMPORAL_PROFILE_FQN: &'static str = "meta::pure::profiles::temporal";

/// FQN of the profile whose stereotypes mark synthesized properties.
pub const MILESTONING_PROFILE_FQN: &'static str = "meta::pure::profiles::milestoning";

/// Stereotype applied to synthesized edge-point and qualified properties.
pub const GENERATED_MILESTONING_STEREOTYPE: &'static str = "generatedmilestoningproperty";

/// Stereotype applied to synthesized date properties and the carrier slot.
pub const GENERATED_MILESTONING_DATE_STEREOTYPE: &'static str = "generatedmilestoningdateproperty";

/// The synthesized slot pointing at the carrier class (multiplicity `[0..1]`).
pub const MILESTONING_SLOT_NAME: &'static str = "milestoning";

/// Synthesized business-date property name.
pub const BUSINESS_DATE_PROPERTY: &'static str = "businessDate";

/// Synthesized processing-date property name.
pub const PROCESSING_DATE_PROPERTY: &'static str = "processingDate";

/// Lower bound of a business-temporal range on the carrier class.
pub const FROM_PROPERTY: &'static str = "from";

/// Upper bound of a business-temporal range on the carrier class.
pub const THRU_PROPERTY: &'static str = "thru";

/// Lower bound of a processing-temporal range on the carrier class.
pub const IN_PROPERTY: &'static str = "in";

/// Upper bound of a processing-temporal range on the carrier class.
pub const OUT_PROPERTY: &'static str = "out";

/// FQN of the business-temporal carrier class.
pub const BUSINESS_DATE_MILESTONING_FQN: &'static str = "meta::pure::milestoning::BusinessDateMilestoning";

/// FQN of the processing-temporal carrier class.
pub const PROCESSING_DATE_MILESTONING_FQN: &'static str =
    "meta::pure::milestoning::ProcessingDateMilestoning";

/// FQN of the bitemporal carrier class.
pub const BITEMPORAL_MILESTONING_FQN: &'static str = "meta::pure::milestoning::BiTemporalMilestoning";

/// The three temporal stereotypes.
#[derive(Clone, Copy, Debug, PartialEq, Eq, Hash, Structural)]
pub enum MilestoningStereotype {
    /// `<<temporal.businesstemporal>>`: adds `businessDate` and a
    /// `BusinessDateMilestoning` slot with `from` / `thru`.
    BusinessTemporal,
    /// `<<temporal.processingtemporal>>`: adds `processingDate` and a
    /// `ProcessingDateMilestoning` slot with `in` / `out`.
    ProcessingTemporal,
    /// `<<temporal.bitemporal>>`: both dates and all four range properties.
    Bitemporal,
}

/// Views of a sequence of string slices.
pub open spec fn strs_view(s: Seq<&str>) -> Seq<Seq<char>> {
    s.map_values(|x: &str| x@)
}

/// The stereotype a value name denotes, if any.
pub open spec fn stereotype_of_name(name: Seq<char>) -> Option<MilestoningStereotype> {
    if name == "businesstemporal"@ {
        Some(MilestoningStereotype::BusinessTemporal)
    } else if name == "processingtemporal"@ {
        Some(MilestoningStereotype::ProcessingTemporal)
    } else if name == "bitemporal"@ {
        Some(MilestoningStereotype::Bitemporal)
    } else {
        None
    }
}

impl MilestoningStereotype {
    /// The value name written after the profile (`businesstemporal`, ...).
    pub open spec fn name_of(self) -> Seq<char> {
        match self {
            MilestoningStereotype::BusinessTemporal => "businesstemporal"@,
            MilestoningStereotype::ProcessingTemporal => "processingtemporal"@,
            MilestoningStereotype::Bitemporal => "bitemporal"@,
        }
    }

    /// Date properties synthesized on the owning class, in declaration order
    /// (processing date first for bitemporal).
    pub open spec fn date_names(self) -> Seq<Seq<char>> {
        match self {
            MilestoningStereotype::BusinessTemporal => seq![BUSINESS_DATE_PROPERTY@],
            MilestoningStereotype::ProcessingTemporal => seq![PROCESSING_DATE_PROPERTY@],
            MilestoningStereotype::Bitemporal => seq![
                PROCESSING_DATE_PROPERTY@,
                BUSINESS_DATE_PROPERTY@,
            ],
        }
    }

    /// Range properties of the carrier class (`in` / `out` first for
    /// bitemporal).
    pub open spec fn range_names(self) -> Seq<Seq<char>> {
        match self {
            MilestoningStereotype::BusinessTemporal => seq![FROM_PROPERTY@, THRU_PROPERTY@],
            MilestoningStereotype::ProcessingTemporal => seq![IN_PROPERTY@, OUT_PROPERTY@],
            MilestoningStereotype::Bitemporal => seq![
                IN_PROPERTY@,
                OUT_PROPERTY@,
                FROM_PROPERTY@,
                THRU_PROPERTY@,
            ],
        }
    }

    /// FQN of the carrier class bound to the `milestoning` slot.
    pub open spec fn carrier_fqn(self) -> Seq<char> {
        match self {
            MilestoningStereotype::BusinessTemporal => BUSINESS_DATE_MILESTONING_FQN@,
            MilestoningStereotype::ProcessingTemporal => PROCESSING_DATE_MILESTONING_FQN@,
            MilestoningStereotype::Bitemporal => BITEMPORAL_MILESTONING_FQN@,
        }
    }

    /// Parses a stereotype value name; `None` for any other name.
    pub fn from_value_name(name: &str) -> (r: Option<MilestoningStereotype>)
        ensures
            r == stereotype_of_name(name@),
    {
        if str_eq(name, "businesstemporal") {
            Some(MilestoningStereotype::BusinessTemporal)
        } else if str_eq(name, "processingtemporal") {
            Some(MilestoningStereotype::ProcessingTemporal)
        } else if str_eq(name, "bitemporal") {
            Some(MilestoningStereotype::Bitemporal)
        } else {
            None
        }
    }

    /// The temporal date property names this stereotype synthesizes.
    pub fn temporal_date_property_names(self) -> (r: Vec<&'static str>)
        ensures
            strs_view(r@) == self.date_names(),
    {
        let r = match self {
            MilestoningStereotype::BusinessTemporal => vec![BUSINESS_DATE_PROPERTY],
            MilestoningStereotype::ProcessingTemporal => vec![PROCESSING_DATE_PROPERTY],
            MilestoningStereotype::Bitemporal => vec![
                PROCESSING_DATE_PROPERTY,
                BUSINESS_DATE_PROPERTY,
            ],
        };
        assert(strs_view(r@) =~= self.date_names());
        r
    }

    /// The range property names of this stereotype's carrier class.
    pub fn milestoning_property_names(self) -> (r: Vec<&'static str>)
        ensures
            strs_view(r@) == self.range_names(),
    {
        let r = match self {
            MilestoningStereotype::BusinessTemporal => vec![FROM_PROPERTY, THRU_PROPERTY],
            MilestoningStereotype::ProcessingTemporal => vec![IN_PROPERTY, OUT_PROPERTY],
            MilestoningStereotype::Bitemporal => vec![
                IN_PROPERTY,
                OUT_PROPERTY,
                FROM_PROPERTY,
                THRU_PROPERTY,
            ],
        };
        assert(strs_view(r@) =~= self.range_names());
        r
    }

    /// FQN of the carrier class this stereotype binds to the `milestoning`
    /// slot.
    pub fn milestoning_property_class_fqn(self) -> (r: &'static str)
        ensures
            r@ == self.carrier_fqn(),
    {
        match self {
            MilestoningStereotype::BusinessTemporal => BUSINESS_DATE_MILESTONING_FQN,
            MilestoningStereotype::ProcessingTemporal => PROCESSING_DATE_MILESTONING_FQN,
            MilestoningStereotype::Bitemporal => BITEMPORAL_MILESTONING_FQN,
        }
    }

    /// The stereotype's value name as written in source.
    pub fn value_name(self) -> (r: &'static str)
        ensures
            r@ == self.name_of(),
    {
        match self {
            MilestoningStereotype::BusinessTemporal => "businesstemporal",
            MilestoningStereotype::ProcessingTemporal => "processingtemporal",
            MilestoningStereotype::Bitemporal => "bitemporal",
        }
    }
}

/// Edge-point property name for a milestoned-target property:
/// `p` becomes `pAllVersions`.
pub fn edge_point_property_name(name: &str) -> (r: String)
    ensures
        r@ == name@ + "AllVersions"@,
{
    let mut r = name.to_owned();
    r.append("AllVersions");
    r
}

/// Range property name for a milestoned-target property:
/// `p` becomes `pAllVersionsInRange`.
pub fn range_property_name(name: &str) -> (r: String)
    ensures
        r@ == name@ + "AllVersionsInRange"@,
{
    let mut r = name.to_owned();
    r.append("AllVersionsInRange");
    r
}

/// Names that synthesis claims on a class carrying `s`: its date
/// properties, the `milestoning` slot, then the carrier's range properties.
pub open spec fn reserved_names(s: MilestoningStereotype) -> Seq<Seq<char>> {
    s.date_names() + seq![MILESTONING_SLOT_NAME@] + s.range_names()
}

/// Names reserved on a class carrying `s`: user-declared properties may not
/// use them.
pub fn reserved_property_names_for(s: MilestoningStereotype) -> (r: Vec<&'static str>)
    ensures
        strs_view(r@) == reserved_names(s),
{
    let mut out = s.temporal_date_property_names();
    out.push(MILESTONING_SLOT_NAME);
    let ranges = s.milestoning_property_names();
    let ghost start = out@;
    let mut i: usize = 0;
    while i < ranges.len()
        invariant
            i <= ranges.len(),
            out@ == start + ranges@.take(i as int),
        decreases ranges.len() - i,
    {
        out.push(ranges[i]);
        assert(ranges@.take(i + 1) =~= ranges@.take(i as int).push(ranges@[i as int]));
        i = i + 1;
    }
    assert(ranges@.take(i as int) =~= ranges@);
    assert(strs_view(start) =~= s.date_names() + seq![MILESTONING_SLOT_NAME@]);
    assert(strs_view(out@) =~= strs_view(start) + strs_view(ranges@));
    out
}

/// The names reserved for a stereotype are pairwise distinct: four for a
/// single temporal dimension, seven for bitemporal.
pub proof fn lemma_reserved_names_distinct(s: MilestoningStereotype)
    ensures
        reserved_names(s).no_duplicates(),
        reserved_names(s).len() == match s {
            MilestoningStereotype::Bitemporal => 7int,
            _ => 4int,
        },
{
    reveal_strlit("businessDate");
    reveal_strlit("processingDate");
    reveal_strlit("milestoning");
    reveal_strlit("from");
    reveal_strlit("thru");
    reveal_strlit("in");
    reveal_strlit("out");
    assert(BUSINESS_DATE_PROPERTY@.len() == 12);
    assert(PROCESSING_DATE_PROPERTY@.len() == 14);
    assert(MILESTONING_SLOT_NAME@.len() == 11);
    assert(FROM_PROPERTY@.len() == 4);
    assert(THRU_PROPERTY@.len() == 4);
    assert(IN_PROPERTY@.len() == 2);
    assert(OUT_PROPERTY@.len() == 3);
    assert(FROM_PROPERTY@[0] != THRU_PROPERTY@[0]);
    let r = reserved_names(s);
    assert forall|i: int, j: int| 0 <= i < r.len() && 0 <= j < r.len() && i != j implies r[i] != r[j] by {
        if r[i] == r[j] {
            assert(r[i].len() == r[j].len());
            assert(r[i][0] == r[j][0]);
        }
    }
}

/// Path of the `temporal` profile.
pub open spec fn temporal_profile_path() -> Seq<Seq<char>> {
    seq!["meta"@, "pure"@, "profiles"@, "temporal"@]
}

/// Path of the `milestoning` profile.
pub open spec fn milestoning_profile_path() -> Seq<Seq<char>> {
    seq!["meta"@, "pure"@, "profiles"@, "milestoning"@]
}

/// Path of the carrier class of stereotype `s`.
pub open spec fn carrier_path(s: MilestoningStereotype) -> Seq<Seq<char>> {
    seq![
        "meta"@,
        "pure"@,
        "milestoning"@,
        match s {
            MilestoningStereotype::BusinessTemporal => "BusinessDateMilestoning"@,
            MilestoningStereotype::ProcessingTemporal => "ProcessingDateMilestoning"@,
            MilestoningStereotype::Bitemporal => "BiTemporalMilestoning"@,
        },
    ]
}

/// The `temporal` profile of the model, where it is loaded.
pub fn resolve_temporal_profile(model: &PureModel) -> (r: Option<ElementId>)
    requires
        model.wf(),
        model.children_resolvable(),
    ensures
        r == model.spec_resolve_by_path(temporal_profile_path()),
{
    let path = crate::pipeline::path_of(&["meta", "pure", "profiles", "temporal"]);
    assert(crate::model::names_view(path@) =~= temporal_profile_path());
    model.resolve_by_path(path.as_slice())
}

/// The `milestoning` profile of the model, where it is loaded.
pub fn resolve_milestoning_profile(model: &PureModel) -> (r: Option<ElementId>)
    requires
        model.wf(),
        model.children_resolvable(),
    ensures
        r == model.spec_resolve_by_path(milestoning_profile_path()),
{
    let path = crate::pipeline::path_of(&["meta", "pure", "profiles", "milestoning"]);
    assert(crate::model::names_view(path@) =~= milestoning_profile_path());
    model.resolve_by_path(path.as_slice())
}

/// The carrier class of stereotype `s`, where it is loaded.
pub fn resolve_carrier(model: &PureModel, s: MilestoningStereotype) -> (r: Option<ElementId>)
    requires
        model.wf(),
        model.children_resolvable(),
    ensures
        r == model.spec_resolve_by_path(carrier_path(s)),
{
    let name = match s {
        MilestoningStereotype::BusinessTemporal => "BusinessDateMilestoning",
        MilestoningStereotype::ProcessingTemporal => "ProcessingDateMilestoning",
        MilestoningStereotype::Bitemporal => "BiTemporalMilestoning",
    };
    let path = crate::pipeline::path_of(&["meta", "pure", "milestoning", name]);
    assert(crate::model::names_view(path@) =~= carrier_path(s));
    model.resolve_by_path(path.as_slice())
}

/// The temporal stereotypes among `s` (those of `profile` with a temporal
/// value name), each kept at its first occurrence.
pub open spec fn direct_temporal(s: Seq<StereotypeRef>, profile: ElementId) -> Seq<
    MilestoningStereotype,
>
    decreases s.len(),
{
    if s.len() == 0 {
        Seq::empty()
    } else {
        let prev = direct_temporal(s.drop_last(), profile);
        if s.last().profile == profile {
            match stereotype_of_name(s.last().value@) {
                Some(k) => if prev.contains(k) {
                    prev
                } else {
                    prev.push(k)
                },
                None => prev,
            }
        } else {
            prev
        }
    }
}

/// `s[i]` applies a temporal stereotype of `profile`, namely `k`.
pub open spec fn applies(s: Seq<StereotypeRef>, profile: ElementId, i: int, k: MilestoningStereotype) -> bool {
    0 <= i < s.len() && s[i].profile == profile && stereotype_of_name(s[i].value@) == Some(k)
}

fn contains_stereotype(v: &Vec<MilestoningStereotype>, k: MilestoningStereotype) -> (r: bool)
    ensures
        r == v@.contains(k),
{
    let mut i: usize = 0;
    while i < v.len()
        invariant
            i <= v.len(),
            forall|j: int| 0 <= j < i ==> v@[j] != k,
        decreases v.len() - i,
    {
        if v[i] == k {
            return true;
        }
        i = i + 1;
    }
    false
}

/// The temporal stereotypes carried directly by `stereotypes` (supertypes
/// are not consulted), deduplicated in first-occurrence order.
pub fn direct_temporal_stereotypes(stereotypes: &[StereotypeRef], temporal_profile: ElementId) -> (r:
    Vec<MilestoningStereotype>)
    ensures
        r@ == direct_temporal(stereotypes@, temporal_profile),
{
    let mut out: Vec<MilestoningStereotype> = Vec::new();
    let mut i: usize = 0;
    while i < stereotypes.len()
        invariant
            i <= stereotypes@.len(),
            out@ == direct_temporal(stereotypes@.take(i as int), temporal_profile),
        decreases stereotypes.len() - i,
    {
        let s = &stereotypes[i];
        assert(stereotypes@.take(i + 1).drop_last() =~= stereotypes@.take(i as int));
        assert(stereotypes@.take(i + 1).last() == stereotypes@[i as int]);
        if s.profile == temporal_profile {
            match MilestoningStereotype::from_value_name(s.value.as_str()) {
                Some(kind) => {
                    if !contains_stereotype(&out, kind) {
                        out.push(kind);
                    }
                },
                None => {},
            }
        }
        i = i + 1;
    }
    assert(stereotypes@.take(i as int) =~= stereotypes@);
    out
}

/// The direct temporal stereotypes hold no duplicates, and hold exactly the
/// temporal stereotypes that some entry of the list applies.
pub proof fn lemma_direct_temporal_dedup(s: Seq<StereotypeRef>, profile: ElementId)
    ensures
        direct_temporal(s, profile).no_duplicates(),
        forall|k: MilestoningStereotype|
            #![trigger direct_temporal(s, profile).contains(k)]
            direct_temporal(s, profile).contains(k) <==> exists|i: int| applies(s, profile, i, k),
    decreases s.len(),
{
    if s.len() > 0 {
        let p = s.drop_last();
        lemma_direct_temporal_dedup(p, profile);
        let prev = direct_temporal(p, profile);
        let cur = direct_temporal(s, profile);
        assert forall|k: MilestoningStereotype|
            #![trigger cur.contains(k)]
            cur.contains(k) <==> exists|i: int| applies(s, profile, i, k) by {
            if cur.contains(k) {
                if prev.contains(k) {
                    let i = choose|i: int| applies(p, profile, i, k);
                    assert(applies(s, profile, i, k));
                } else {
                    assert(applies(s, profile, s.len() - 1, k));
                }
            }
            if exists|i: int| applies(s, profile, i, k) {
                let i = choose|i: int| applies(s, profile, i, k);
                if i < s.len() - 1 {
                    assert(applies(p, profile, i, k));
                    assert(prev.contains(k));
                    if cur != prev {
                        assert(cur[prev.len() as int] != k);
                        assert(cur[cur.len() - 1] != k);
                        let j = choose|j: int| 0 <= j < prev.len() && prev[j] == k;
                        assert(cur[j] == k);
                    }
                } else {
                    assert(s[i] == s.last());
                    if !prev.contains(k) {
                        assert(cur[cur.len() - 1] == k);
                    }
                }
            }
        }
    }
}

/// The first temporal stereotype found on `id` or, depth-first in
/// declaration order, on its class supertypes (`Any` excluded), under a
/// given ranking of the hierarchy.
pub open spec fn inherited_r(
    m: PureModel,
    rank: spec_fn(ElementId) -> nat,
    id: ElementId,
    profile: ElementId,
) -> Option<MilestoningStereotype>
    decreases rank(id), 1nat, 0nat,
    when m.ranked(rank)
{
    if !m.valid_id(id) {
        None
    } else {
        match m.elem(id) {
            Element::Class(c) => {
                let d = direct_temporal(c.stereotypes@, profile);
                if d.len() > 0 {
                    Some(d[0])
                } else if m.direct_supers(id) == named_ids(c.super_types@) {
                    inherited_in(m, rank, named_ids(c.super_types@), profile, rank(id))
                } else {
                    None
                }
            },
            _ => None,
        }
    }
}

/// The first of `s` (skipping `Any`) with an inherited temporal stereotype.
pub open spec fn inherited_in(
    m: PureModel,
    rank: spec_fn(ElementId) -> nat,
    s: Seq<ElementId>,
    profile: ElementId,
    bound: nat,
) -> Option<MilestoningStereotype>
    decreases bound, 0nat, s.len(),
    when m.ranked(rank) && forall|k: int| 0 <= k < s.len() ==> rank(#[trigger] s[k]) < bound
{
    if s.len() == 0 {
        None
    } else {
        match inherited_in(m, rank, s.drop_last(), profile, bound) {
            Some(x) => Some(x),
            None => if s.last() != any_id() {
                inherited_r(m, rank, s.last(), profile)
            } else {
                None
            },
        }
    }
}

impl PureModel {
    /// The temporal stereotype a class carries directly or inherits.
    pub open spec fn inherited_temporal(&self, id: ElementId, profile: ElementId) -> Option<
        MilestoningStereotype,
    > {
        inherited_r(*self, self.the_rank(), id, profile)
    }
}

/// Once a prefix of `s` yields a stereotype, the whole of `s` yields it.
proof fn lemma_inherited_in_prefix(
    m: PureModel,
    rank: spec_fn(ElementId) -> nat,
    s: Seq<ElementId>,
    n: int,
    profile: ElementId,
    bound: nat,
)
    requires
        m.ranked(rank),
        forall|k: int| 0 <= k < s.len() ==> rank(#[trigger] s[k]) < bound,
        0 <= n <= s.len(),
        inherited_in(m, rank, s.take(n), profile, bound) is Some,
    ensures
        inherited_in(m, rank, s, profile, bound) == inherited_in(m, rank, s.take(n), profile, bound),
    decreases s.len() - n,
{
    if n == s.len() {
        assert(s.take(n) =~= s);
    } else {
        let d = s.drop_last();
        assert(d.take(n) =~= s.take(n));
        assert forall|k: int| 0 <= k < d.len() implies rank(#[trigger] d[k]) < bound by {
            assert(d[k] == s[k]);
        }
        assert forall|k: int| 0 <= k < s.take(n).len() implies rank(#[trigger] s.take(n)[k])
            < bound by {
            assert(s.take(n)[k] == s[k]);
        }
        lemma_inherited_in_prefix(m, rank, d, n, profile, bound);
    }
}

fn inherited_rec(
    model: &PureModel,
    class_id: ElementId,
    temporal_profile: ElementId,
    Ghost(rank): Ghost<spec_fn(ElementId) -> nat>,
) -> (r: Option<MilestoningStereotype>)
    requires
        model.ranked(rank),
    ensures
        r == inherited_r(*model, rank, class_id, temporal_profile),
    decreases rank(class_id),
{
    let c = match model.try_get_element(class_id) {
        Some(Element::Class(c)) => c,
        _ => {
            return None;
        },
    };
    let direct = direct_temporal_stereotypes(c.stereotypes.as_slice(), temporal_profile);
    if direct.len() > 0 {
        return Some(direct[0]);
    }
    let sts = &c.super_types;
    let ghost supers = named_ids(sts@);
    let mut i: usize = 0;
    assert(sts@.take(0) =~= Seq::<TypeExpr>::empty());
    while i < sts.len()
        invariant
            model.ranked(rank),
            model.valid_id(class_id),
            model.elem(class_id) == Element::Class(*c),
            direct_temporal(c.stereotypes@, temporal_profile).len() == 0,
            supers == named_ids(sts@),
            supers == model.direct_supers(class_id),
            i <= sts.len(),
            named_ids(sts@.take(i as int)).len() <= supers.len(),
            named_ids(sts@.take(i as int)) == supers.take(
                named_ids(sts@.take(i as int)).len() as int,
            ),
            inherited_in(
                *model,
                rank,
                named_ids(sts@.take(i as int)),
                temporal_profile,
                rank(class_id),
            ) is None,
        decreases sts.len() - i,
    {
        proof {
            crate::resolve::lemma_named_ids_step(sts@, i as int);
            crate::resolve::lemma_named_ids_take(sts@, i + 1);
            crate::resolve::lemma_named_ids_take(sts@, i as int);
            let pre = named_ids(sts@.take(i as int));
            assert forall|k: int| 0 <= k < pre.len() implies rank(#[trigger] pre[k]) < rank(
                class_id,
            ) by {
                assert(pre[k] == supers[k]);
                assert(model.direct_supers(class_id)[k] == supers[k]);
            }
            let nxt = named_ids(sts@.take(i + 1));
            assert forall|k: int| 0 <= k < nxt.len() implies rank(#[trigger] nxt[k]) < rank(
                class_id,
            ) by {
                assert(nxt[k] == supers[k]);
                assert(model.direct_supers(class_id)[k] == supers[k]);
            }
        }
        match &sts[i] {
            TypeExpr::Named { element: sup, .. } => {
                let ghost k = named_ids(sts@.take(i as int)).len() as int;
                assert(named_ids(sts@.take(i + 1))[k] == *sup);
                assert(supers[k] == *sup);
                assert(model.direct_supers(class_id)[k] == *sup);
                proof {
                    let nxt = named_ids(sts@.take(i + 1));
                    assert(nxt.drop_last() =~= named_ids(sts@.take(i as int)));
                    assert(nxt.last() == *sup);
                }
                if *sup != any_id() {
                    let found = inherited_rec(model, *sup, temporal_profile, Ghost(rank));
                    if found.is_some() {
                        proof {
                            let nxt = named_ids(sts@.take(i + 1));
                            assert(nxt == supers.take(nxt.len() as int));
                            lemma_inherited_in_prefix(
                                *model,
                                rank,
                                supers,
                                nxt.len() as int,
                                temporal_profile,
                                rank(class_id),
                            );
                        }
                        return found;
                    }
                }
            },
            _ => {},
        }
        i = i + 1;
    }
    assert(sts@.take(i as int) =~= sts@);
    None
}

/// Walks the class's transitive supertypes (classes only, `Any` excluded)
/// and returns the first temporal stereotype found; the class's own
/// stereotypes come first.
pub fn inherited_temporal_stereotype(
    model: &PureModel,
    class_id: ElementId,
    temporal_profile: ElementId,
) -> (r: Option<MilestoningStereotype>)
    requires
        model.hierarchy_wf(),
    ensures
        r == model.inherited_temporal(class_id, temporal_profile),
{
    inherited_rec(model, class_id, temporal_profile, Ghost(model.the_rank()))
}

/// Character-wise string equality.
pub fn str_eq(a: &str, b: &str) -> (r: bool)
    ensures
        r == (a@ == b@),
{
    let n = a.unicode_len();
    if n != b.unicode_len() {
        return false;
    }
    let mut i: usize = 0;
    while i < n
        invariant
            n == a@.len(),
            n == b@.len(),
            i <= n,
            forall|j: int| 0 <= j < i ==> a@[j] == b@[j],
        decreases n - i,
    {
        if a.get_char(i) != b.get_char(i) {
            return false;
        }
        i = i + 1;
    }
    assert(a@ =~= b@);
    true
}

/// Parsing a stereotype's own value name gives the stereotype back.
pub proof fn lemma_value_name_round_trip(s: MilestoningStereotype)
    ensures
        stereotype_of_name(s.name_of()) == Some(s),
{
    reveal_strlit("businesstemporal");
    reveal_strlit("processingtemporal");
    reveal_strlit("bitemporal");
    assert("businesstemporal"@.len() == 16);
    assert("processingtemporal"@.len() == 18);
    assert("bitemporal"@.len() == 10);
}

} // verus!

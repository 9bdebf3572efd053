//! Type-hierarchy queries over a compiled model: subtyping, type distance,
//! least upper bounds, type compatibility and property lookup through
//! supertypes.

use vstd::prelude::*;

pub mod narrow;
pub mod unqualified;
pub mod type_ref;
pub mod annotations;

use crate::ids::{any_id, nil_id, ElementId};
use crate::model::{Element, PureModel};
use crate::multiplicity::{is_multiplicity_compatible, lub, mult_compatible, mult_lub};
use crate::types::{
    dup_mults, dup_types, lemma_te_view_parts, mults_view, te_view, Multiplicity, MultView,
    RelationColumnTypeExpr, TypeExpr, TypeExprView,
};

verus! {

broadcast use vstd::std_specs::vec::axiom_vec_index_decreases;

// ---------------------------------------------------------------------------
// Supertype graph
// ---------------------------------------------------------------------------

/// The element ids of the `Named` entries of a supertype list, in order.
pub open spec fn named_ids(s: Seq<TypeExpr>) -> Seq<ElementId>
    decreases s.len(),
{
    if s.len() == 0 {
        Seq::empty()
    } else {
        let front = named_ids(s.drop_last());
        match s.last() {
            TypeExpr::Named { element, .. } => front.push(element),
            _ => front,
        }
    }
}

pub proof fn lemma_named_ids_concat(a: Seq<TypeExpr>, b: Seq<TypeExpr>)
    ensures
        named_ids(a + b) == named_ids(a) + named_ids(b),
    decreases b.len(),
{
    if b.len() == 0 {
        assert(a + b =~= a);
        assert(named_ids(a) + named_ids(b) =~= named_ids(a));
    } else {
        assert((a + b).drop_last() =~= a + b.drop_last());
        lemma_named_ids_concat(a, b.drop_last());
        assert((a + b).last() == b.last());
        match b.last() {
            TypeExpr::Named { element, .. } => {
                assert(named_ids(a) + named_ids(b.drop_last()).push(element) =~= (named_ids(a)
                    + named_ids(b.drop_last())).push(element));
            },
            _ => {},
        }
    }
}

/// `named_ids` of a prefix is a prefix of `named_ids`.
pub proof fn lemma_named_ids_take(s: Seq<TypeExpr>, i: int)
    requires
        0 <= i <= s.len(),
    ensures
        named_ids(s.take(i)).len() <= named_ids(s).len(),
        named_ids(s.take(i)) == named_ids(s).take(named_ids(s.take(i)).len() as int),
{
    assert(s =~= s.take(i) + s.skip(i));
    lemma_named_ids_concat(s.take(i), s.skip(i));
    assert(named_ids(s).take(named_ids(s.take(i)).len() as int) =~= named_ids(s.take(i)));
}

/// One more entry of the list contributes its id when it is `Named`.
pub proof fn lemma_named_ids_step(s: Seq<TypeExpr>, i: int)
    requires
        0 <= i < s.len(),
    ensures
        named_ids(s.take(i + 1)) == match s[i] {
            TypeExpr::Named { element, .. } => named_ids(s.take(i)).push(element),
            _ => named_ids(s.take(i)),
        },
{
    assert(s.take(i + 1).drop_last() =~= s.take(i));
    assert(s.take(i + 1).last() == s[i]);
}

impl PureModel {
    /// Direct supertypes of an element: the `Named` supertypes of a class,
    /// the super type of a primitive type; nothing for other elements or
    /// out-of-range ids.
    pub open spec fn direct_supers(&self, id: ElementId) -> Seq<ElementId> {
        if !self.valid_id(id) {
            Seq::empty()
        } else {
            match self.elem(id) {
                Element::Class(c) => named_ids(c.super_types@),
                Element::PrimitiveType(p) => match p.super_type {
                    Some(s) => seq![s],
                    None => Seq::empty(),
                },
                _ => Seq::empty(),
            }
        }
    }

    /// `rank` strictly decreases along every supertype edge, and every
    /// supertype reference is in range.
    pub open spec fn ranked(&self, rank: spec_fn(ElementId) -> nat) -> bool {
        forall|id: ElementId, k: int|
            #![trigger self.direct_supers(id)[k]]
            0 <= k < self.direct_supers(id).len() ==> {
                &&& self.valid_id(self.direct_supers(id)[k])
                &&& rank(self.direct_supers(id)[k]) < rank(id)
            }
    }

    /// The supertype graph is closed (references resolve) and acyclic.
    pub open spec fn hierarchy_wf(&self) -> bool {
        exists|rank: spec_fn(ElementId) -> nat| self.ranked(rank)
    }

    /// A ranking witnessing `hierarchy_wf`.
    pub open spec fn the_rank(&self) -> spec_fn(ElementId) -> nat {
        choose|rank: spec_fn(ElementId) -> nat| self.ranked(rank)
    }

    /// `child` is `parent`, is `Nil`, or reaches `parent` through
    /// supertype edges.
    pub open spec fn subtype(&self, child: ElementId, parent: ElementId) -> bool {
        subtype_r(*self, self.the_rank(), child, parent)
    }

    /// The primary supertype: a primitive's super type, or a class's first
    /// supertype when that one is `Named`.
    pub open spec fn first_super(&self, id: ElementId) -> Option<ElementId> {
        if !self.valid_id(id) {
            None
        } else {
            match self.elem(id) {
                Element::PrimitiveType(p) => p.super_type,
                Element::Class(c) => if c.super_types.len() > 0 {
                    match c.super_types@[0] {
                        TypeExpr::Named { element, .. } => Some(element),
                        _ => None,
                    }
                } else {
                    None
                },
                _ => None,
            }
        }
    }
}

/// Subtyping under a given ranking.
pub open spec fn subtype_r(
    m: PureModel,
    rank: spec_fn(ElementId) -> nat,
    child: ElementId,
    parent: ElementId,
) -> bool
    decreases rank(child),
    when m.ranked(rank)
{
    ||| child == parent
    ||| child == nil_id()
    ||| exists|k: int|
        #![trigger m.direct_supers(child)[k]]
        0 <= k < m.direct_supers(child).len() && (m.direct_supers(child)[k] == parent || subtype_r(
            m,
            rank,
            m.direct_supers(child)[k],
            parent,
        ))
}

/// The primary-supertype chain of `id`, starting with `id` itself.
pub open spec fn ancestors_r(m: PureModel, rank: spec_fn(ElementId) -> nat, id: ElementId) -> Seq<
    ElementId,
>
    decreases rank(id),
    when m.ranked(rank)
{
    match m.first_super(id) {
        Some(s) => {
            if m.direct_supers(id).len() > 0 && m.direct_supers(id)[0] == s {
                seq![id] + ancestors_r(m, rank, s)
            } else {
                seq![id]
            }
        },
        None => seq![id],
    }
}

/// First element of `cur`'s primary chain that occurs in `anc`.
pub open spec fn first_common(
    m: PureModel,
    rank: spec_fn(ElementId) -> nat,
    cur: ElementId,
    anc: Seq<ElementId>,
) -> Option<ElementId>
    decreases rank(cur),
    when m.ranked(rank)
{
    if anc.contains(cur) {
        Some(cur)
    } else {
        match m.first_super(cur) {
            Some(s) => {
                if m.direct_supers(cur).len() > 0 && m.direct_supers(cur)[0] == s {
                    first_common(m, rank, s, anc)
                } else {
                    None
                }
            },
            None => None,
        }
    }
}

impl PureModel {
    pub open spec fn ancestors(&self, id: ElementId) -> Seq<ElementId> {
        ancestors_r(*self, self.the_rank(), id)
    }

    /// Least upper bound of two elements: the supertype when one is a
    /// subtype of the other; otherwise the first element of `b`'s primary
    /// chain that lies on `a`'s primary chain; otherwise `Any`.
    pub open spec fn lub(&self, a: ElementId, b: ElementId) -> ElementId {
        if a == b {
            a
        } else if self.subtype(a, b) {
            b
        } else if self.subtype(b, a) {
            a
        } else {
            match first_common(*self, self.the_rank(), b, self.ancestors(a)) {
                Some(c) => c,
                None => any_id(),
            }
        }
    }
}

/// The primary supertype is the first direct supertype.
pub proof fn lemma_first_super_is_direct(m: PureModel, id: ElementId)
    ensures
        m.first_super(id) matches Some(s) ==> m.direct_supers(id).len() > 0
            && m.direct_supers(id)[0] == s,
{
    if m.valid_id(id) {
        match m.elem(id) {
            Element::Class(c) => {
                if c.super_types.len() > 0 {
                    let s = c.super_types@;
                    lemma_named_ids_take(s, 1);
                    lemma_named_ids_step(s, 0);
                    assert(s.take(0) =~= Seq::<TypeExpr>::empty());
                    assert(named_ids(Seq::<TypeExpr>::empty()) =~= Seq::<ElementId>::empty());
                    assert(m.direct_supers(id) == named_ids(s));
                    match s[0] {
                        TypeExpr::Named { element, .. } => {
                            assert(named_ids(s.take(1)) =~= seq![element]);
                            assert(named_ids(s).take(1)[0] == named_ids(s)[0]);
                            assert(named_ids(s)[0] == element);
                        },
                        _ => {},
                    }
                }
            },
            _ => {},
        }
    }
}

// ---------------------------------------------------------------------------
// Exec: subtyping and least upper bounds
// ---------------------------------------------------------------------------

/// Along every supertype edge out of a member of `reach`, the supertype
/// is in the model, in `reach`, and of smaller `rank`.
pub open spec fn chain_ranked(m: PureModel, rank: spec_fn(ElementId) -> nat, reach: Set<ElementId>) -> bool {
    forall|id: ElementId, k: int|
        #![trigger reach.contains(id), m.direct_supers(id)[k]]
        reach.contains(id) && 0 <= k < m.direct_supers(id).len() ==> {
            &&& m.valid_id(m.direct_supers(id)[k])
            &&& reach.contains(m.direct_supers(id)[k])
            &&& rank(m.direct_supers(id)[k]) < rank(id)
        }
}

/// The supertypes reachable from `child` are in the model and acyclic:
/// some set holding `child` and closed under supertypes is ranked.
pub open spec fn hierarchy_wf_from(m: PureModel, child: ElementId) -> bool {
    exists|rr: (spec_fn(ElementId) -> nat, Set<ElementId>)| rr.1.contains(child) && #[trigger] chain_ranked(m, rr.0, rr.1)
}

/// A ranking witnessing [`hierarchy_wf_from`].
pub open spec fn local_ranking(m: PureModel, child: ElementId) -> (spec_fn(ElementId) -> nat, Set<ElementId>) {
    choose|rr: (spec_fn(ElementId) -> nat, Set<ElementId>)| rr.1.contains(child) && #[trigger] chain_ranked(m, rr.0, rr.1)
}

/// `child` is `parent`, is `Nil`, or reaches `parent` through supertype
/// edges each of which descends in `rank`.
pub open spec fn subtype_lr(m: PureModel, rank: spec_fn(ElementId) -> nat, child: ElementId, parent: ElementId) -> bool
    decreases rank(child),
{
    ||| child == parent
    ||| child == nil_id()
    ||| exists|k: int|
        #![trigger m.direct_supers(child)[k]]
        0 <= k < m.direct_supers(child).len() && (m.direct_supers(child)[k] == parent || (rank(
            m.direct_supers(child)[k],
        ) < rank(child) && subtype_lr(m, rank, m.direct_supers(child)[k], parent)))
}

/// `child` is `parent`, is `Nil`, or reaches `parent` through supertype
/// edges (read on the hierarchy reachable from `child`).
pub open spec fn subtype_from(m: PureModel, child: ElementId, parent: ElementId) -> bool {
    subtype_lr(m, local_ranking(m, child).0, child, parent)
}

/// The ids of the model's elements.
pub open spec fn valid_ids(m: PureModel) -> Set<ElementId> {
    Set::new(|id: ElementId| m.valid_id(id))
}

/// A ranking of the whole model ranks the chains of its elements.
proof fn lemma_global_ranking(m: PureModel)
    requires
        m.hierarchy_wf(),
    ensures
        chain_ranked(m, m.the_rank(), valid_ids(m)),
{
    assert forall|id: ElementId, k: int|
        valid_ids(m).contains(id) && 0 <= k < m.direct_supers(id).len() implies {
            &&& m.valid_id(m.direct_supers(id)[k])
            &&& valid_ids(m).contains(m.direct_supers(id)[k])
            &&& m.the_rank()(m.direct_supers(id)[k]) < m.the_rank()(id)
        } by {
        assert(m.ranked(m.the_rank()));
        assert(m.valid_id(m.direct_supers(id)[k]));
    }
}

/// Two rankings of sets holding `child` give the same answer.
proof fn lemma_subtype_lr_ranking_free(
    m: PureModel,
    r1: spec_fn(ElementId) -> nat,
    s1: Set<ElementId>,
    r2: spec_fn(ElementId) -> nat,
    s2: Set<ElementId>,
    child: ElementId,
    parent: ElementId,
)
    requires
        chain_ranked(m, r1, s1),
        chain_ranked(m, r2, s2),
        s1.contains(child),
        s2.contains(child),
    ensures
        subtype_lr(m, r1, child, parent) == subtype_lr(m, r2, child, parent),
    decreases r1(child),
{
    let sup = m.direct_supers(child);
    assert forall|k: int| 0 <= k < sup.len() implies (r1(#[trigger] sup[k]) < r1(child) && r2(sup[k]) < r2(child)
        && s1.contains(sup[k]) && s2.contains(sup[k])) by {
        assert(s1.contains(child) && 0 <= k < m.direct_supers(child).len());
        assert(s2.contains(child));
    }
    assert forall|k: int| 0 <= k < sup.len() implies subtype_lr(m, r1, #[trigger] sup[k], parent) == subtype_lr(
        m,
        r2,
        sup[k],
        parent,
    ) by {
        lemma_subtype_lr_ranking_free(m, r1, s1, r2, s2, sup[k], parent);
    }
}

/// On a ranked model the two readings of subtyping agree.
proof fn lemma_subtype_lr_global(m: PureModel, rank: spec_fn(ElementId) -> nat, child: ElementId, parent: ElementId)
    requires
        m.ranked(rank),
    ensures
        subtype_lr(m, rank, child, parent) == subtype_r(m, rank, child, parent),
    decreases rank(child),
{
    let sup = m.direct_supers(child);
    assert forall|k: int| 0 <= k < sup.len() implies rank(#[trigger] sup[k]) < rank(child) && subtype_lr(
        m,
        rank,
        sup[k],
        parent,
    ) == subtype_r(m, rank, sup[k], parent) by {
        assert(rank(m.direct_supers(child)[k]) < rank(child));
        lemma_subtype_lr_global(m, rank, sup[k], parent);
    }
}

fn is_subtype_rec(
    child: ElementId,
    parent: ElementId,
    model: &PureModel,
    Ghost(rank): Ghost<spec_fn(ElementId) -> nat>,
    Ghost(reach): Ghost<Set<ElementId>>,
) -> (r: bool)
    requires
        chain_ranked(*model, rank, reach),
        child == parent || child == nil_id() || (model.valid_id(child) && reach.contains(child)),
    ensures
        r == subtype_lr(*model, rank, child, parent),
    decreases rank(child),
{
    if child == parent {
        return true;
    }
    if child == nil_id() {
        return true;
    }
    let ghost supers = model.direct_supers(child);
    match model.get_element(child) {
        Element::Class(c) => {
            let sts = &c.super_types;
            let mut i: usize = 0;
            assert(sts@.take(0) =~= Seq::<TypeExpr>::empty());
            while i < sts.len()
                invariant
                    chain_ranked(*model, rank, reach),
                    model.valid_id(child),
                    reach.contains(child),
                    child != parent,
                    child != nil_id(),
                    model.elem(child) == Element::Class(*c),
                    supers == named_ids(sts@),
                    supers == model.direct_supers(child),
                    i <= sts.len(),
                    named_ids(sts@.take(i as int)).len() <= supers.len(),
                    forall|k: int|
                        0 <= k < named_ids(sts@.take(i as int)).len() ==> !(supers[k] == parent
                            || (rank(supers[k]) < rank(child) && subtype_lr(*model, rank, #[trigger] supers[k], parent))),
                decreases sts.len() - i,
            {
                proof {
                    lemma_named_ids_step(sts@, i as int);
                    lemma_named_ids_take(sts@, i + 1);
                    lemma_named_ids_take(sts@, i as int);
                }
                match &sts[i] {
                    TypeExpr::Named { element: sup, .. } => {
                        let ghost k = named_ids(sts@.take(i as int)).len() as int;
                        assert(named_ids(sts@.take(i + 1))[k] == *sup);
                        assert(supers[k] == *sup);
                        assert(model.direct_supers(child)[k] == *sup);
                        if *sup == parent || is_subtype_rec(*sup, parent, model, Ghost(rank), Ghost(reach)) {
                            return true;
                        }
                    },
                    _ => {},
                }
                i = i + 1;
            }
            assert(sts@.take(i as int) =~= sts@);
            false
        },
        Element::PrimitiveType(p) => {
            match p.super_type {
                Some(sup) => {
                    assert(supers[0] == sup);
                    sup == parent || is_subtype_rec(sup, parent, model, Ghost(rank), Ghost(reach))
                },
                None => false,
            }
        },
        _ => false,
    }
}

/// Whether `child` is `parent` or one of its (transitive) subtypes.
/// `Nil` is a subtype of everything. Only the supertypes reachable from
/// `child` are read: they must be in the model and acyclic.
pub fn is_subtype(child: ElementId, parent: ElementId, model: &PureModel) -> (r: bool)
    requires
        child == parent || child == nil_id() || (model.valid_id(child) && hierarchy_wf_from(*model, child)),
    ensures
        r == subtype_from(*model, child, parent),
        model.hierarchy_wf() ==> r == model.subtype(child, parent),
{
    if child == parent || child == nil_id() {
        return true;
    }
    let ghost rr = local_ranking(*model, child);
    let r = is_subtype_rec(child, parent, model, Ghost(rr.0), Ghost(rr.1));
    proof {
        if model.hierarchy_wf() {
            lemma_global_ranking(*model);
            lemma_subtype_lr_ranking_free(*model, rr.0, rr.1, model.the_rank(), valid_ids(*model), child, parent);
            lemma_subtype_lr_global(*model, model.the_rank(), child, parent);
        }
    }
    r
}

/// [`is_subtype`] on a model whose whole hierarchy is well formed.
pub(crate) fn is_subtype_in(child: ElementId, parent: ElementId, model: &PureModel) -> (r: bool)
    requires
        model.hierarchy_wf(),
        child == parent || child == nil_id() || model.valid_id(child),
    ensures
        r == model.subtype(child, parent),
{
    proof {
        if child != parent && child != nil_id() {
            lemma_global_ranking(*model);
            let rr = (model.the_rank(), valid_ids(*model));
            assert(rr.1.contains(child) && chain_ranked(*model, rr.0, rr.1));
            assert(hierarchy_wf_from(*model, child));
        }
    }
    is_subtype(child, parent, model)
}

/// The primary supertype of `id`.
pub fn get_first_supertype(id: ElementId, model: &PureModel) -> (r: Option<ElementId>)
    requires
        model.valid_id(id),
    ensures
        r == model.first_super(id),
{
    match model.get_element(id) {
        Element::PrimitiveType(p) => p.super_type,
        Element::Class(c) => {
            if c.super_types.len() > 0 {
                match &c.super_types[0] {
                    TypeExpr::Named { element, .. } => Some(*element),
                    _ => None,
                }
            } else {
                None
            }
        },
        _ => None,
    }
}

fn collect_ancestors_rec(
    id: ElementId,
    model: &PureModel,
    out: &mut Vec<ElementId>,
    Ghost(rank): Ghost<spec_fn(ElementId) -> nat>,
)
    requires
        model.ranked(rank),
        model.valid_id(id),
    ensures
        final(out)@ == old(out)@ + ancestors_r(*model, rank, id),
    decreases rank(id),
{
    out.push(id);
    proof {
        lemma_first_super_is_direct(*model, id);
    }
    if let Some(sup) = get_first_supertype(id, model) {
        collect_ancestors_rec(sup, model, out, Ghost(rank));
        assert(old(out)@.push(id) + ancestors_r(*model, rank, sup) =~= old(out)@ + (seq![id]
            + ancestors_r(*model, rank, sup)));
    } else {
        assert(old(out)@.push(id) =~= old(out)@ + seq![id]);
    }
}

/// Appends `id` and its primary-supertype chain to `out`.
pub fn collect_ancestors(id: ElementId, model: &PureModel, out: &mut Vec<ElementId>)
    requires
        model.hierarchy_wf(),
        model.valid_id(id),
    ensures
        final(out)@ == old(out)@ + model.ancestors(id),
{
    collect_ancestors_rec(id, model, out, Ghost(model.the_rank()));
}

pub(crate) fn contains_id(v: &Vec<ElementId>, x: ElementId) -> (r: bool)
    ensures
        r == v@.contains(x),
{
    let mut i: usize = 0;
    while i < v.len()
        invariant
            i <= v.len(),
            forall|k: int| 0 <= k < i ==> v@[k] != x,
        decreases v.len() - i,
    {
        if v[i] == x {
            return true;
        }
        i = i + 1;
    }
    false
}

/// Least upper bound of two elements in the type hierarchy (`Any` when no
/// common primary ancestor exists).
fn least_upper_bound(a: ElementId, b: ElementId, model: &PureModel) -> (r: ElementId)
    requires
        model.hierarchy_wf(),
        a == b || ((a == nil_id() || model.valid_id(a)) && (b == nil_id() || model.valid_id(b))),
    ensures
        r == model.lub(a, b),
{
    if a == b {
        return a;
    }
    if is_subtype_in(a, b, model) {
        return b;
    }
    if is_subtype_in(b, a, model) {
        return a;
    }
    assert(a != nil_id() && b != nil_id());
    let ghost rank = model.the_rank();
    let mut a_ancestors: Vec<ElementId> = Vec::new();
    collect_ancestors(a, model, &mut a_ancestors);
    assert(a_ancestors@ =~= model.ancestors(a));
    let mut current = b;
    loop
        invariant
            model.hierarchy_wf(),
            model.ranked(rank),
            rank == model.the_rank(),
            model.valid_id(current),
            a != b,
            !model.subtype(a, b),
            !model.subtype(b, a),
            a_ancestors@ == model.ancestors(a),
            first_common(*model, rank, b, a_ancestors@) == first_common(
                *model,
                rank,
                current,
                a_ancestors@,
            ),
        decreases rank(current),
    {
        if contains_id(&a_ancestors, current) {
            return current;
        }
        proof {
            lemma_first_super_is_direct(*model, current);
        }
        match get_first_supertype(current, model) {
            Some(sup) => {
                current = sup;
            },
            None => {
                return any_id();
            },
        }
    }
}

/// The primary-supertype chain of `id`, starting with `id` itself,
/// following only edges that descend in `rank`.
pub open spec fn ancestors_lr(m: PureModel, rank: spec_fn(ElementId) -> nat, id: ElementId) -> Seq<ElementId>
    decreases rank(id),
{
    match m.first_super(id) {
        Some(s) => {
            if m.direct_supers(id).len() > 0 && m.direct_supers(id)[0] == s && rank(s) < rank(id) {
                seq![id] + ancestors_lr(m, rank, s)
            } else {
                seq![id]
            }
        },
        None => seq![id],
    }
}

/// First element of `cur`'s primary chain that occurs in `anc`,
/// following only edges that descend in `rank`.
pub open spec fn first_common_lr(
    m: PureModel,
    rank: spec_fn(ElementId) -> nat,
    cur: ElementId,
    anc: Seq<ElementId>,
) -> Option<ElementId>
    decreases rank(cur),
{
    if anc.contains(cur) {
        Some(cur)
    } else {
        match m.first_super(cur) {
            Some(s) => {
                if m.direct_supers(cur).len() > 0 && m.direct_supers(cur)[0] == s && rank(s) < rank(cur) {
                    first_common_lr(m, rank, s, anc)
                } else {
                    None
                }
            },
            None => None,
        }
    }
}

/// Least upper bound of two elements, read on the hierarchy reachable
/// from them: the supertype when one is a subtype of the other;
/// otherwise the first element of `b`'s primary chain that lies on
/// `a`'s primary chain; otherwise `Any`.
pub open spec fn lub_from(m: PureModel, a: ElementId, b: ElementId) -> ElementId {
    if a == b {
        a
    } else if subtype_from(m, a, b) {
        b
    } else if subtype_from(m, b, a) {
        a
    } else {
        match first_common_lr(
            m,
            local_ranking(m, b).0,
            b,
            ancestors_lr(m, local_ranking(m, a).0, a),
        ) {
            Some(c) => c,
            None => any_id(),
        }
    }
}

/// Two rankings of sets holding `id` give the same primary chain.
proof fn lemma_ancestors_lr_ranking_free(
    m: PureModel,
    r1: spec_fn(ElementId) -> nat,
    s1: Set<ElementId>,
    r2: spec_fn(ElementId) -> nat,
    s2: Set<ElementId>,
    id: ElementId,
)
    requires
        chain_ranked(m, r1, s1),
        chain_ranked(m, r2, s2),
        s1.contains(id),
        s2.contains(id),
    ensures
        ancestors_lr(m, r1, id) == ancestors_lr(m, r2, id),
    decreases r1(id),
{
    lemma_first_super_is_direct(m, id);
    if let Some(s) = m.first_super(id) {
        assert(s1.contains(id) && 0 <= 0 < m.direct_supers(id).len());
        assert(s2.contains(id));
        assert(r1(m.direct_supers(id)[0]) < r1(id));
        assert(r2(m.direct_supers(id)[0]) < r2(id));
        lemma_ancestors_lr_ranking_free(m, r1, s1, r2, s2, s);
    }
}

/// On a ranked model the two readings of the primary chain agree.
proof fn lemma_ancestors_lr_global(m: PureModel, rank: spec_fn(ElementId) -> nat, id: ElementId)
    requires
        m.ranked(rank),
    ensures
        ancestors_lr(m, rank, id) == ancestors_r(m, rank, id),
    decreases rank(id),
{
    lemma_first_super_is_direct(m, id);
    if let Some(s) = m.first_super(id) {
        assert(rank(m.direct_supers(id)[0]) < rank(id));
        lemma_ancestors_lr_global(m, rank, s);
    }
}

/// Two rankings of sets holding `cur` find the same common element.
proof fn lemma_first_common_lr_ranking_free(
    m: PureModel,
    r1: spec_fn(ElementId) -> nat,
    s1: Set<ElementId>,
    r2: spec_fn(ElementId) -> nat,
    s2: Set<ElementId>,
    cur: ElementId,
    anc: Seq<ElementId>,
)
    requires
        chain_ranked(m, r1, s1),
        chain_ranked(m, r2, s2),
        s1.contains(cur),
        s2.contains(cur),
    ensures
        first_common_lr(m, r1, cur, anc) == first_common_lr(m, r2, cur, anc),
    decreases r1(cur),
{
    lemma_first_super_is_direct(m, cur);
    if let Some(s) = m.first_super(cur) {
        assert(s1.contains(cur) && 0 <= 0 < m.direct_supers(cur).len());
        assert(s2.contains(cur));
        assert(r1(m.direct_supers(cur)[0]) < r1(cur));
        assert(r2(m.direct_supers(cur)[0]) < r2(cur));
        lemma_first_common_lr_ranking_free(m, r1, s1, r2, s2, s, anc);
    }
}

/// On a ranked model the two readings of the first common element agree.
proof fn lemma_first_common_lr_global(
    m: PureModel,
    rank: spec_fn(ElementId) -> nat,
    cur: ElementId,
    anc: Seq<ElementId>,
)
    requires
        m.ranked(rank),
    ensures
        first_common_lr(m, rank, cur, anc) == first_common(m, rank, cur, anc),
    decreases rank(cur),
{
    lemma_first_super_is_direct(m, cur);
    if let Some(s) = m.first_super(cur) {
        assert(rank(m.direct_supers(cur)[0]) < rank(cur));
        lemma_first_common_lr_global(m, rank, s, anc);
    }
}

fn collect_ancestors_from(
    id: ElementId,
    model: &PureModel,
    out: &mut Vec<ElementId>,
    Ghost(rank): Ghost<spec_fn(ElementId) -> nat>,
    Ghost(reach): Ghost<Set<ElementId>>,
)
    requires
        chain_ranked(*model, rank, reach),
        reach.contains(id),
        model.valid_id(id),
    ensures
        final(out)@ == old(out)@ + ancestors_lr(*model, rank, id),
    decreases rank(id),
{
    out.push(id);
    proof {
        lemma_first_super_is_direct(*model, id);
    }
    if let Some(sup) = get_first_supertype(id, model) {
        assert(reach.contains(id) && 0 <= 0 < model.direct_supers(id).len());
        assert(rank(model.direct_supers(id)[0]) < rank(id));
        collect_ancestors_from(sup, model, out, Ghost(rank), Ghost(reach));
        assert(old(out)@.push(id) + ancestors_lr(*model, rank, sup) =~= old(out)@ + (seq![id]
            + ancestors_lr(*model, rank, sup)));
    } else {
        assert(old(out)@.push(id) =~= old(out)@ + seq![id]);
    }
}

/// Least upper bound of two elements (exposed for runtime `type()`
/// computations). Only the supertypes reachable from `a` and `b` are
/// read: they must be in the model and acyclic; `Nil` is read nowhere.
pub fn least_upper_bound_ids(a: ElementId, b: ElementId, model: &PureModel) -> (r: ElementId)
    requires
        a == b || ((a == nil_id() || (model.valid_id(a) && hierarchy_wf_from(*model, a))) && (b == nil_id() || (
        model.valid_id(b) && hierarchy_wf_from(*model, b)))),
    ensures
        r == lub_from(*model, a, b),
        model.hierarchy_wf() ==> r == model.lub(a, b),
{
    if a == b {
        return a;
    }
    if is_subtype(a, b, model) {
        return b;
    }
    if is_subtype(b, a, model) {
        return a;
    }
    assert(a != nil_id() && b != nil_id());
    let ghost ra = local_ranking(*model, a);
    let ghost rb = local_ranking(*model, b);
    let mut a_ancestors: Vec<ElementId> = Vec::new();
    collect_ancestors_from(a, model, &mut a_ancestors, Ghost(ra.0), Ghost(ra.1));
    assert(a_ancestors@ =~= ancestors_lr(*model, ra.0, a));
    proof {
        if model.hierarchy_wf() {
            lemma_global_ranking(*model);
            lemma_ancestors_lr_ranking_free(*model, ra.0, ra.1, model.the_rank(), valid_ids(*model), a);
            lemma_ancestors_lr_global(*model, model.the_rank(), a);
            lemma_first_common_lr_ranking_free(
                *model,
                rb.0,
                rb.1,
                model.the_rank(),
                valid_ids(*model),
                b,
                a_ancestors@,
            );
            lemma_first_common_lr_global(*model, model.the_rank(), b, a_ancestors@);
        }
    }
    let ghost target = first_common_lr(*model, rb.0, b, a_ancestors@);
    assert(lub_from(*model, a, b) == or_any(target));
    let mut current = b;
    loop
        invariant
            chain_ranked(*model, rb.0, rb.1),
            rb.1.contains(current),
            model.valid_id(current),
            target == first_common_lr(*model, rb.0, current, a_ancestors@),
            lub_from(*model, a, b) == or_any(target),
            model.hierarchy_wf() ==> model.lub(a, b) == or_any(target),
        ensures
            r_found(current, target),
        decreases rb.0(current),
    {
        if contains_id(&a_ancestors, current) {
            break;
        }
        proof {
            lemma_first_super_is_direct(*model, current);
        }
        match get_first_supertype(current, model) {
            Some(sup) => {
                assert(rb.1.contains(current) && 0 <= 0 < model.direct_supers(current).len());
                assert(rb.0(model.direct_supers(current)[0]) < rb.0(current));
                current = sup;
            },
            None => {
                return any_id();
            },
        }
    }
    current
}

spec fn r_found(current: ElementId, target: Option<ElementId>) -> bool {
    target == Some(current)
}

spec fn or_any(found: Option<ElementId>) -> ElementId {
    match found {
        Some(c) => c,
        None => any_id(),
    }
}

// ---------------------------------------------------------------------------
// Laws of the hierarchy
// ---------------------------------------------------------------------------

/// Every element is a subtype of itself.
pub proof fn lemma_subtype_reflexive(m: PureModel, a: ElementId)
    requires
        m.hierarchy_wf(),
    ensures
        m.subtype(a, a),
{
}

proof fn lemma_subtype_r_transitive(
    m: PureModel,
    rank: spec_fn(ElementId) -> nat,
    a: ElementId,
    b: ElementId,
    c: ElementId,
)
    requires
        m.ranked(rank),
        subtype_r(m, rank, a, b),
        subtype_r(m, rank, b, c),
    ensures
        subtype_r(m, rank, a, c),
    decreases rank(a),
{
    if a == b || a == c || a == nil_id() {
    } else {
        let k = choose|k: int|
            #![trigger m.direct_supers(a)[k]]
            0 <= k < m.direct_supers(a).len() && (m.direct_supers(a)[k] == b || subtype_r(
                m,
                rank,
                m.direct_supers(a)[k],
                b,
            ));
        let s = m.direct_supers(a)[k];
        if s != b {
            lemma_subtype_r_transitive(m, rank, s, b, c);
        }
        assert(s == c || subtype_r(m, rank, s, c));
    }
}

/// Subtyping is transitive.
pub proof fn lemma_subtype_transitive(m: PureModel, a: ElementId, b: ElementId, c: ElementId)
    requires
        m.hierarchy_wf(),
        m.subtype(a, b),
        m.subtype(b, c),
    ensures
        m.subtype(a, c),
{
    lemma_subtype_r_transitive(m, m.the_rank(), a, b, c);
}

proof fn lemma_ancestors_r_supertypes(
    m: PureModel,
    rank: spec_fn(ElementId) -> nat,
    x: ElementId,
    k: int,
)
    requires
        m.ranked(rank),
        0 <= k < ancestors_r(m, rank, x).len(),
    ensures
        subtype_r(m, rank, x, ancestors_r(m, rank, x)[k]),
    decreases rank(x),
{
    if k > 0 {
        let s = m.first_super(x).unwrap();
        assert(m.direct_supers(x)[0] == s);
        assert(ancestors_r(m, rank, x)[k] == ancestors_r(m, rank, s)[k - 1]);
        lemma_ancestors_r_supertypes(m, rank, s, k - 1);
    }
}

proof fn lemma_first_common_r(
    m: PureModel,
    rank: spec_fn(ElementId) -> nat,
    cur: ElementId,
    anc: Seq<ElementId>,
)
    requires
        m.ranked(rank),
    ensures
        first_common(m, rank, cur, anc) matches Some(c) ==> anc.contains(c) && subtype_r(
            m,
            rank,
            cur,
            c,
        ),
    decreases rank(cur),
{
    if !anc.contains(cur) {
        match m.first_super(cur) {
            Some(s) => {
                if m.direct_supers(cur).len() > 0 && m.direct_supers(cur)[0] == s {
                    lemma_first_common_r(m, rank, s, anc);
                }
            },
            None => {},
        }
    }
}

/// The least upper bound is a common supertype of both inputs, unless the
/// search fell back to `Any`.
pub proof fn lemma_lub_is_upper_bound(m: PureModel, a: ElementId, b: ElementId)
    requires
        m.hierarchy_wf(),
    ensures
        m.lub(a, b) == any_id() || (m.subtype(a, m.lub(a, b)) && m.subtype(b, m.lub(a, b))),
{
    let rank = m.the_rank();
    if a != b && !m.subtype(a, b) && !m.subtype(b, a) {
        lemma_first_common_r(m, rank, b, m.ancestors(a));
        if let Some(c) = first_common(m, rank, b, m.ancestors(a)) {
            let k = choose|k: int| 0 <= k < m.ancestors(a).len() && m.ancestors(a)[k] == c;
            lemma_ancestors_r_supertypes(m, rank, a, k);
        }
    }
}

/// The least upper bound of an element with itself is that element.
pub proof fn lemma_lub_idempotent(m: PureModel, a: ElementId)
    ensures
        m.lub(a, a) == a,
{
}


/// `Nil` is the identity of the least upper bound.
pub proof fn lemma_lub_nil_identity(m: PureModel, b: ElementId)
    requires
        m.hierarchy_wf(),
    ensures
        m.lub(nil_id(), b) == b,
{
    assert(m.ranked(m.the_rank()));
}

/// No element lists `Nil` among its supertypes.
pub open spec fn nil_is_bottom(m: PureModel) -> bool {
    forall|x: ElementId, k: int|
        0 <= k < m.direct_supers(x).len() ==> #[trigger] m.direct_supers(x)[k] != nil_id()
}

/// First element of `s` that occurs in `anc`.
pub open spec fn first_in(s: Seq<ElementId>, anc: Seq<ElementId>) -> Option<ElementId>
    decreases s.len(),
{
    if s.len() == 0 {
        None
    } else if anc.contains(s[0]) {
        Some(s[0])
    } else {
        first_in(s.drop_first(), anc)
    }
}

proof fn lemma_subtype_r_rank(m: PureModel, rank: spec_fn(ElementId) -> nat, x: ElementId, y: ElementId)
    requires
        m.ranked(rank),
        nil_is_bottom(m),
        subtype_r(m, rank, x, y),
    ensures
        x == y || x == nil_id() || rank(y) < rank(x),
    decreases rank(x),
{
    if x != y && x != nil_id() {
        let k = choose|k: int|
            #![trigger m.direct_supers(x)[k]]
            0 <= k < m.direct_supers(x).len() && (m.direct_supers(x)[k] == y || subtype_r(
                m,
                rank,
                m.direct_supers(x)[k],
                y,
            ));
        let s = m.direct_supers(x)[k];
        assert(rank(s) < rank(x));
        assert(s != nil_id());
        if s != y {
            lemma_subtype_r_rank(m, rank, s, y);
        }
    }
}

proof fn lemma_not_below_nil(m: PureModel, rank: spec_fn(ElementId) -> nat, x: ElementId)
    requires
        m.ranked(rank),
        nil_is_bottom(m),
        x != nil_id(),
    ensures
        !subtype_r(m, rank, x, nil_id()),
    decreases rank(x),
{
    assert forall|k: int| 0 <= k < m.direct_supers(x).len() implies !(#[trigger] m.direct_supers(x)[k]
        == nil_id() || subtype_r(m, rank, m.direct_supers(x)[k], nil_id())) by {
        lemma_not_below_nil(m, rank, m.direct_supers(x)[k]);
    }
}

proof fn lemma_first_common_is_first_in(
    m: PureModel,
    rank: spec_fn(ElementId) -> nat,
    cur: ElementId,
    anc: Seq<ElementId>,
)
    requires
        m.ranked(rank),
    ensures
        first_common(m, rank, cur, anc) == first_in(ancestors_r(m, rank, cur), anc),
    decreases rank(cur),
{
    let a = ancestors_r(m, rank, cur);
    lemma_chain_shape(m, rank, cur);
    assert(a[0] == cur);
    if !anc.contains(cur) {
        match m.first_super(cur) {
            Some(s) => {
                if m.direct_supers(cur).len() > 0 && m.direct_supers(cur)[0] == s {
                    lemma_first_common_is_first_in(m, rank, s, anc);
                    assert(a == seq![cur] + ancestors_r(m, rank, s));
                    assert(a.drop_first() =~= ancestors_r(m, rank, s));
                    assert(first_in(a, anc) == first_in(a.drop_first(), anc));
                    assert(first_common(m, rank, cur, anc) == first_common(m, rank, s, anc));
                } else {
                    assert(a.drop_first() =~= Seq::<ElementId>::empty());
                    assert(first_in(a.drop_first(), anc) is None);
                    assert(first_in(a, anc) is None);
                }
            },
            None => {
                assert(a.drop_first() =~= Seq::<ElementId>::empty());
                assert(first_in(a.drop_first(), anc) is None);
                assert(first_in(a, anc) is None);
            },
        }
    } else {
        assert(first_in(a, anc) == Some(cur));
    }
}

/// Past any of its elements, a primary chain is that element's chain;
/// ranks strictly decrease along it.
proof fn lemma_chain_shape(m: PureModel, rank: spec_fn(ElementId) -> nat, x: ElementId)
    requires
        m.ranked(rank),
    ensures
        ancestors_r(m, rank, x).len() >= 1,
        ancestors_r(m, rank, x)[0] == x,
        forall|i: int|
            0 <= i < ancestors_r(m, rank, x).len() ==> ancestors_r(m, rank, x).skip(i) == ancestors_r(
                m,
                rank,
                #[trigger] ancestors_r(m, rank, x)[i],
            ),
        forall|i: int, j: int|
            0 <= i < j < ancestors_r(m, rank, x).len() ==> rank(#[trigger] ancestors_r(m, rank, x)[j])
                < rank(#[trigger] ancestors_r(m, rank, x)[i]),
    decreases rank(x),
{
    let a = ancestors_r(m, rank, x);
    match m.first_super(x) {
        Some(s) => {
            if m.direct_supers(x).len() > 0 && m.direct_supers(x)[0] == s {
                lemma_chain_shape(m, rank, s);
                let b = ancestors_r(m, rank, s);
                assert(a == seq![x] + b);
                assert(rank(s) < rank(x));
                assert forall|i: int| 0 <= i < a.len() implies a.skip(i) == ancestors_r(
                    m,
                    rank,
                    #[trigger] a[i],
                ) by {
                    if i == 0 {
                        assert(a.skip(0) =~= a);
                    } else {
                        assert(a[i] == b[i - 1]);
                        assert(a.skip(i) =~= b.skip(i - 1));
                    }
                }
                assert forall|i: int, j: int| 0 <= i < j < a.len() implies rank(#[trigger] a[j]) < rank(
                    #[trigger] a[i],
                ) by {
                    assert(a[j] == b[j - 1]);
                    if i > 0 {
                        assert(a[i] == b[i - 1]);
                    } else {
                        assert(b[0] == s);
                        if j - 1 > 0 {
                            assert(rank(b[j - 1]) < rank(b[0]));
                        }
                    }
                }
            } else {
                assert(a =~= seq![x]);
                assert(a.skip(0) =~= a);
            }
        },
        None => {
            assert(a =~= seq![x]);
            assert(a.skip(0) =~= a);
        },
    }
}

proof fn lemma_first_in_found(s: Seq<ElementId>, anc: Seq<ElementId>)
    ensures
        first_in(s, anc) matches Some(x) ==> exists|j: int|
            0 <= j < s.len() && s[j] == x && anc.contains(x) && forall|k: int|
                0 <= k < j ==> !anc.contains(#[trigger] s[k]),
        first_in(s, anc) is None ==> forall|k: int| 0 <= k < s.len() ==> !anc.contains(#[trigger] s[k]),
    decreases s.len(),
{
    if s.len() > 0 {
        lemma_first_in_found(s.drop_first(), anc);
        if !anc.contains(s[0]) {
            if let Some(x) = first_in(s, anc) {
                let j = choose|j: int|
                    0 <= j < s.drop_first().len() && s.drop_first()[j] == x && anc.contains(x) && forall|
                        k: int,
                    | 0 <= k < j ==> !anc.contains(#[trigger] s.drop_first()[k]);
                assert(s[j + 1] == x);
                assert forall|k: int| 0 <= k < j + 1 implies !anc.contains(#[trigger] s[k]) by {
                    if k > 0 {
                        assert(s[k] == s.drop_first()[k - 1]);
                    }
                }
            } else {
                assert forall|k: int| 0 <= k < s.len() implies !anc.contains(#[trigger] s[k]) by {
                    if k > 0 {
                        assert(s[k] == s.drop_first()[k - 1]);
                    }
                }
            }
        } else {
            assert(forall|k: int| 0 <= k < 0 ==> !anc.contains(#[trigger] s[k]));
        }
    }
}

/// Two chains that continue alike from every element they share, each
/// without repeats, meet first at the same element from either side.
proof fn lemma_first_in_symmetric(a: Seq<ElementId>, b: Seq<ElementId>)
    requires
        forall|i: int, j: int| 0 <= i < j < a.len() ==> a[i] != a[j],
        forall|i: int, j: int|
            0 <= i < a.len() && 0 <= j < b.len() && a[i] == b[j] ==> a.skip(i) == b.skip(j),
    ensures
        first_in(b, a) == first_in(a, b),
{
    lemma_first_in_found(b, a);
    lemma_first_in_found(a, b);
    match first_in(b, a) {
        None => {
            if let Some(y) = first_in(a, b) {
                let i = choose|i: int|
                    0 <= i < a.len() && a[i] == y && b.contains(y) && forall|k: int|
                        0 <= k < i ==> !b.contains(#[trigger] a[k]);
                let j = choose|j: int| 0 <= j < b.len() && b[j] == y;
                assert(a.contains(b[j]));
            }
        },
        Some(x) => {
            let j = choose|j: int|
                0 <= j < b.len() && b[j] == x && a.contains(x) && forall|k: int|
                    0 <= k < j ==> !a.contains(#[trigger] b[k]);
            let i = choose|i: int| 0 <= i < a.len() && a[i] == x;
            assert(b.contains(a[i]));
            let y = first_in(a, b).unwrap();
            let i2 = choose|i2: int|
                0 <= i2 < a.len() && a[i2] == y && b.contains(y) && forall|k: int|
                    0 <= k < i2 ==> !b.contains(#[trigger] a[k]);
            let j2 = choose|j2: int| 0 <= j2 < b.len() && b[j2] == y;
            assert(i2 <= i);
            assert(a[i2] == y);
            assert(a.contains(y));
            if j2 < j {
                assert(a.contains(b[j2]));
            }
            assert(j2 >= j);
            assert(a.skip(i) == b.skip(j));
            assert(a.skip(i).len() == b.skip(j).len());
            assert(b.skip(j)[j2 - j] == y);
            assert(a.skip(i)[j2 - j] == a[i + (j2 - j)]);
            assert(a[i + (j2 - j)] == y);
            if i2 != i + (j2 - j) {
                assert(a[i2] != a[i + (j2 - j)]);
            }
        },
    }
}

/// With `Nil` below everything and nothing else, the least upper bound
/// does not depend on the order of its arguments.
pub proof fn lemma_lub_commutative(m: PureModel, a: ElementId, b: ElementId)
    requires
        m.hierarchy_wf(),
        nil_is_bottom(m),
    ensures
        m.lub(a, b) == m.lub(b, a),
{
    let rank = m.the_rank();
    assert(m.ranked(rank));
    if a != b {
        if m.subtype(a, b) && m.subtype(b, a) {
            if a == nil_id() {
                lemma_not_below_nil(m, rank, b);
            } else if b == nil_id() {
                lemma_not_below_nil(m, rank, a);
            } else {
                lemma_subtype_r_rank(m, rank, a, b);
                lemma_subtype_r_rank(m, rank, b, a);
            }
        } else if !m.subtype(a, b) && !m.subtype(b, a) {
            let aa = m.ancestors(a);
            let bb = m.ancestors(b);
            lemma_first_common_is_first_in(m, rank, b, aa);
            lemma_first_common_is_first_in(m, rank, a, bb);
            lemma_chain_shape(m, rank, a);
            lemma_chain_shape(m, rank, b);
            assert forall|i: int, j: int| 0 <= i < j < aa.len() implies aa[i] != aa[j] by {
                assert(rank(aa[j]) < rank(aa[i]));
            }
            assert forall|i: int, j: int|
                0 <= i < aa.len() && 0 <= j < bb.len() && aa[i] == bb[j] implies aa.skip(i) == bb.skip(j) by {
                assert(aa.skip(i) == ancestors_r(m, rank, aa[i]));
                assert(bb.skip(j) == ancestors_r(m, rank, bb[j]));
            }
            lemma_first_in_symmetric(aa, bb);
        }
    }
}

// ---------------------------------------------------------------------------
// Type compatibility
// ---------------------------------------------------------------------------

/// The outer element of a `Named` type.
pub open spec fn outer_id(t: TypeExprView) -> Option<ElementId> {
    match t {
        TypeExprView::Named { element, .. } => Some(element),
        _ => None,
    }
}

impl PureModel {
    /// Nominal compatibility: a non-`Named` parameter, an `Any` parameter
    /// or an unknown argument accept anything; otherwise the argument must
    /// be the parameter's element or one of its subtypes.
    pub open spec fn type_compatible(&self, arg: Option<ElementId>, param: TypeExprView) -> bool {
        match param {
            TypeExprView::Named { element: pe, .. } => pe == any_id() || match arg {
                None => true,
                Some(a) => a == pe || subtype_from(*self, a, pe),
            },
            _ => true,
        }
    }

    /// The supertypes reachable from the argument id are in the model and
    /// acyclic, where the check needs to walk them.
    pub open spec fn compat_wf(&self, arg: Option<ElementId>, param: TypeExprView) -> bool {
        match (arg, param) {
            (Some(a), TypeExprView::Named { element: pe, .. }) => pe == any_id() || a == pe || a
                == nil_id() || hierarchy_wf_from(*self, a),
            _ => true,
        }
    }

    /// The argument id can be looked up when the check needs to walk its
    /// supertypes.
    pub open spec fn compat_callable(&self, arg: Option<ElementId>, param: TypeExprView) -> bool {
        match (arg, param) {
            (Some(a), TypeExprView::Named { element: pe, .. }) => pe == any_id() || a == pe || a
                == nil_id() || self.valid_id(a),
            _ => true,
        }
    }

    /// Every element named in `t` (through type arguments and function
    /// types) is in range.
    pub open spec fn ids_valid(&self, t: TypeExprView) -> bool
        decreases t,
    {
        match t {
            TypeExprView::Named { element, type_arguments, .. } => self.valid_id(element) && forall|
                i: int,
            |
                #![trigger type_arguments[i]]
                0 <= i < type_arguments.len() ==> self.ids_valid(type_arguments[i]),
            TypeExprView::FunctionType { parameters, return_type, .. } => (forall|i: int|
                #![trigger parameters[i]]
                0 <= i < parameters.len() ==> self.ids_valid(parameters[i].0)) && self.ids_valid(
                *return_type,
            ),
            _ => true,
        }
    }
}

/// Structural compatibility: nominal compatibility of the outer element,
/// then pairwise compatibility of type arguments (same element, both
/// parametrised, same arity) or of function-type parameters, return type
/// and multiplicities.
pub open spec fn struct_compatible(m: PureModel, a: TypeExprView, p: TypeExprView) -> bool
    decreases a,
{
    if !m.type_compatible(outer_id(a), p) {
        false
    } else {
        match (a, p) {
            (
                TypeExprView::Named { element: ae, type_arguments: aa, .. },
                TypeExprView::Named { element: pe, type_arguments: pa, .. },
            ) => {
                if ae == pe && pa.len() > 0 && aa.len() > 0 && aa.len() == pa.len() {
                    forall|i: int|
                        #![trigger aa[i]]
                        0 <= i < aa.len() ==> struct_compatible(m, aa[i], pa[i])
                } else {
                    true
                }
            },
            (
                TypeExprView::FunctionType {
                    parameters: ap,
                    return_type: ar,
                    return_multiplicity: arm,
                },
                TypeExprView::FunctionType {
                    parameters: pp,
                    return_type: pr,
                    return_multiplicity: prm,
                },
            ) => {
                &&& ap.len() == pp.len()
                &&& forall|i: int|
                    #![trigger ap[i]]
                    0 <= i < ap.len() ==> struct_compatible(m, ap[i].0, pp[i].0) && mult_compatible(
                        Some(ap[i].1),
                        pp[i].1,
                    )
                &&& struct_compatible(m, *ar, *pr)
                &&& mult_compatible(Some(arm), prm)
            },
            _ => true,
        }
    }
}

/// Whether an argument of element `arg_type` (unknown when `None`) may be
/// passed where `param_type` is expected.
pub fn is_type_compatible(arg_type: Option<ElementId>, param_type: &TypeExpr, model: &PureModel) -> (r:
    bool)
    requires
        model.compat_callable(arg_type, param_type@),
        model.hierarchy_wf() || model.compat_wf(arg_type, param_type@),
    ensures
        r == model.type_compatible(arg_type, param_type@),
{
    proof {
        lemma_te_view_parts(*param_type);
    }
    let param_eid = match param_type {
        TypeExpr::Named { element, .. } => *element,
        _ => {
            return true;
        },
    };
    if param_eid == any_id() {
        return true;
    }
    let arg_eid = match arg_type {
        None => {
            return true;
        },
        Some(a) => a,
    };
    if arg_eid == param_eid {
        return true;
    }
    proof {
        if model.hierarchy_wf() && arg_eid != nil_id() {
            lemma_wf_from_global(*model, arg_eid);
        }
    }
    is_subtype(arg_eid, param_eid, model)
}

/// Type-arguments-aware compatibility of two full type expressions.
#[verifier::loop_isolation(false)]
pub fn is_type_compatible_structural(arg: &TypeExpr, param: &TypeExpr, model: &PureModel) -> (r:
    bool)
    requires
        model.ids_valid(arg@),
        model.hierarchy_wf() || ids_wf(*model, arg@),
    ensures
        r == struct_compatible(*model, arg@, param@),
    decreases arg,
{
    proof {
        lemma_te_view_parts(*arg);
        lemma_te_view_parts(*param);
    }
    let arg_eid = match arg {
        TypeExpr::Named { element, .. } => Some(*element),
        _ => None,
    };
    if !is_type_compatible(arg_eid, param, model) {
        return false;
    }
    match (arg, param) {
        (
            TypeExpr::Named { element: a_e, type_arguments: a_args, .. },
            TypeExpr::Named { element: p_e, type_arguments: p_args, .. },
        ) => {
            if *a_e == *p_e && p_args.len() > 0 && a_args.len() > 0 {
                if a_args.len() == p_args.len() {
                    let mut i: usize = 0;
                    while i < a_args.len()
                        invariant
                            model.hierarchy_wf() || ids_wf(*model, arg@),
                            model.ids_valid(arg@),
                            arg@->type_arguments.len() == a_args.len(),
                            param@->type_arguments.len() == p_args.len(),
                            a_args.len() == p_args.len(),
                            forall|k: int|
                                0 <= k < a_args.len() ==> #[trigger] arg@->type_arguments[k]
                                    == te_view(a_args@[k]),
                            forall|k: int|
                                0 <= k < p_args.len() ==> #[trigger] param@->type_arguments[k]
                                    == te_view(p_args@[k]),
                            i <= a_args.len(),
                            forall|k: int|
                                0 <= k < i ==> struct_compatible(
                                    *model,
                                    #[trigger] arg@->type_arguments[k],
                                    param@->type_arguments[k],
                                ),
                        decreases a_args.len() - i,
                    {
                        proof {
                            vstd::std_specs::vec::axiom_vec_index_decreases(*a_args, i as int);
                            assert(arg@->type_arguments[i as int] == te_view(a_args@[i as int]));
                            assert(model.ids_valid(arg@->type_arguments[i as int]));
                        }
                        if !is_type_compatible_structural(&a_args[i], &p_args[i], model) {
                            return false;
                        }
                        i = i + 1;
                    }
                }
                true
            } else {
                true
            }
        },
        (
            TypeExpr::FunctionType {
                parameters: a_params,
                return_type: a_ret,
                return_multiplicity: a_ret_mult,
            },
            TypeExpr::FunctionType {
                parameters: p_params,
                return_type: p_ret,
                return_multiplicity: p_ret_mult,
            },
        ) => {
            if a_params.len() != p_params.len() {
                return false;
            }
            let mut i: usize = 0;
            while i < a_params.len()
                invariant
                    model.hierarchy_wf() || ids_wf(*model, arg@),
                    model.ids_valid(arg@),
                    arg@->parameters.len() == a_params.len(),
                    param@->parameters.len() == p_params.len(),
                    a_params.len() == p_params.len(),
                    forall|k: int|
                        0 <= k < a_params.len() ==> #[trigger] arg@->parameters[k] == (
                            te_view(a_params@[k].0),
                            a_params@[k].1@,
                        ),
                    forall|k: int|
                        0 <= k < p_params.len() ==> #[trigger] param@->parameters[k] == (
                            te_view(p_params@[k].0),
                            p_params@[k].1@,
                        ),
                    i <= a_params.len(),
                    forall|k: int|
                        0 <= k < i ==> struct_compatible(
                            *model,
                            (#[trigger] arg@->parameters[k]).0,
                            param@->parameters[k].0,
                        ) && mult_compatible(Some(arg@->parameters[k].1), param@->parameters[k].1),
                decreases a_params.len() - i,
            {
                proof {
                    vstd::std_specs::vec::axiom_vec_index_decreases(*a_params, i as int);
                    assert(arg@->parameters[i as int] == (
                        te_view(a_params@[i as int].0),
                        a_params@[i as int].1@,
                    ));
                    assert(param@->parameters[i as int] == (
                        te_view(p_params@[i as int].0),
                        p_params@[i as int].1@,
                    ));
                    assert(model.ids_valid(arg@->parameters[i as int].0));
                }
                if !is_type_compatible_structural(&a_params[i].0, &p_params[i].0, model) {
                    return false;
                }
                if !is_multiplicity_compatible(Some(&a_params[i].1), &p_params[i].1) {
                    return false;
                }
                i = i + 1;
            }
            if !is_type_compatible_structural(&**a_ret, &**p_ret, model) {
                return false;
            }
            is_multiplicity_compatible(Some(a_ret_mult), p_ret_mult)
        },
        _ => true,
    }
}


// ---------------------------------------------------------------------------
// Least upper bounds of type expressions
// ---------------------------------------------------------------------------

/// A bare `Named` reference to `e`.
pub open spec fn named_view(e: ElementId) -> TypeExprView {
    TypeExprView::Named {
        element: e,
        type_arguments: Seq::empty(),
        multiplicity_arguments: Seq::empty(),
        value_arguments: Seq::empty(),
        source_info: None,
    }
}

/// Every element `t` names is in the model and its reachable supertypes
/// are in the model and acyclic.
pub open spec fn ids_wf(m: PureModel, t: TypeExprView) -> bool
    decreases t,
{
    match t {
        TypeExprView::Named { element, type_arguments, .. } => m.valid_id(element) && hierarchy_wf_from(
            m,
            element,
        ) && forall|i: int|
            #![trigger type_arguments[i]]
            0 <= i < type_arguments.len() ==> ids_wf(m, type_arguments[i]),
        TypeExprView::FunctionType { parameters, return_type, .. } => (forall|i: int|
            #![trigger parameters[i]]
            0 <= i < parameters.len() ==> ids_wf(m, parameters[i].0)) && ids_wf(m, *return_type),
        _ => true,
    }
}

/// An element of a model whose hierarchy is well formed throughout has a
/// well-formed reachable hierarchy.
pub proof fn lemma_wf_from_global(m: PureModel, id: ElementId)
    requires
        m.hierarchy_wf(),
        m.valid_id(id),
    ensures
        hierarchy_wf_from(m, id),
        chain_ranked(m, m.the_rank(), valid_ids(m)),
{
    lemma_global_ranking(m);
    let rr = (m.the_rank(), valid_ids(m));
    assert(rr.1.contains(id) && chain_ranked(m, rr.0, rr.1));
}

/// On a model whose hierarchy is well formed throughout, valid ids are
/// well formed.
pub proof fn lemma_ids_wf_global(m: PureModel, t: TypeExprView)
    requires
        m.hierarchy_wf(),
        m.ids_valid(t),
    ensures
        ids_wf(m, t),
    decreases t,
{
    match t {
        TypeExprView::Named { element, type_arguments, .. } => {
            lemma_wf_from_global(m, element);
            assert forall|i: int| 0 <= i < type_arguments.len() implies ids_wf(m, #[trigger] type_arguments[i]) by {
                lemma_ids_wf_global(m, type_arguments[i]);
            }
        },
        TypeExprView::FunctionType { parameters, return_type, .. } => {
            assert forall|i: int| 0 <= i < parameters.len() implies ids_wf(m, #[trigger] parameters[i].0) by {
                lemma_ids_wf_global(m, parameters[i].0);
            }
            lemma_ids_wf_global(m, *return_type);
        },
        _ => {},
    }
}

/// On a model whose hierarchy is well formed throughout, the two readings
/// of subtyping agree.
pub proof fn lemma_subtype_from_global(m: PureModel, child: ElementId, parent: ElementId)
    requires
        m.hierarchy_wf(),
        child == parent || child == nil_id() || m.valid_id(child),
    ensures
        subtype_from(m, child, parent) == m.subtype(child, parent),
{
    if child != parent && child != nil_id() {
        lemma_wf_from_global(m, child);
        let lr = local_ranking(m, child);
        lemma_subtype_lr_ranking_free(m, lr.0, lr.1, m.the_rank(), valid_ids(m), child, parent);
        lemma_subtype_lr_global(m, m.the_rank(), child, parent);
    }
}

/// On a model whose hierarchy is well formed throughout, the two readings
/// of the least upper bound agree.
pub proof fn lemma_lub_from_global(m: PureModel, a: ElementId, b: ElementId)
    requires
        m.hierarchy_wf(),
        a == b || ((a == nil_id() || m.valid_id(a)) && (b == nil_id() || m.valid_id(b))),
    ensures
        lub_from(m, a, b) == m.lub(a, b),
{
    if a != b {
        lemma_subtype_from_global(m, a, b);
        lemma_subtype_from_global(m, b, a);
        if !m.subtype(a, b) && !m.subtype(b, a) {
            assert(a != nil_id() && b != nil_id());
            lemma_wf_from_global(m, a);
            lemma_wf_from_global(m, b);
            let ra = local_ranking(m, a);
            let rb = local_ranking(m, b);
            lemma_ancestors_lr_ranking_free(m, ra.0, ra.1, m.the_rank(), valid_ids(m), a);
            lemma_ancestors_lr_global(m, m.the_rank(), a);
            lemma_first_common_lr_ranking_free(m, rb.0, rb.1, m.the_rank(), valid_ids(m), b, m.ancestors(a));
            lemma_first_common_lr_global(m, m.the_rank(), b, m.ancestors(a));
        }
    }
}

/// The least upper bound is below every common primary ancestor: any
/// element on both `a`'s and `b`'s primary supertype chains is a
/// supertype of `lub(a, b)`.
pub proof fn lemma_lub_is_least(m: PureModel, a: ElementId, b: ElementId, c: ElementId)
    requires
        m.hierarchy_wf(),
        m.ancestors(a).contains(c),
        m.ancestors(b).contains(c),
    ensures
        m.subtype(m.lub(a, b), c),
{
    let rank = m.the_rank();
    assert(m.ranked(rank));
    let aa = m.ancestors(a);
    let ab = m.ancestors(b);
    let i = choose|i: int| 0 <= i < aa.len() && aa[i] == c;
    let k = choose|k: int| 0 <= k < ab.len() && ab[k] == c;
    if a == b || m.subtype(b, a) && !m.subtype(a, b) {
        lemma_ancestors_r_supertypes(m, rank, a, i);
    } else if m.subtype(a, b) {
        lemma_ancestors_r_supertypes(m, rank, b, k);
    } else {
        lemma_first_common_is_first_in(m, rank, b, aa);
        lemma_first_in_found(ab, aa);
        let x = first_in(ab, aa)->0;
        let j = choose|j: int|
            0 <= j < ab.len() && ab[j] == x && aa.contains(x) && forall|q: int|
                0 <= q < j ==> !aa.contains(#[trigger] ab[q]);
        assert(aa.contains(ab[k]));
        assert(j <= k);
        lemma_chain_shape(m, rank, b);
        assert(ab.skip(j) == ancestors_r(m, rank, ab[j]));
        assert(ancestors_r(m, rank, x)[k - j] == c);
        lemma_ancestors_r_supertypes(m, rank, x, k - j);
    }
}

/// The bound of two references to different elements is the least
/// common supertype of the elements: a supertype of both (unless the
/// search falls back to `Any`), the supertype itself when one is a
/// subtype of the other, and below every element that lies on both
/// primary supertype chains. Type arguments are dropped.
pub proof fn lemma_type_lub_named_is_least(m: PureModel, a: TypeExprView, b: TypeExprView)
    requires
        m.hierarchy_wf(),
        a is Named,
        b is Named,
        a->Named_element != b->Named_element,
        a->Named_element == nil_id() || m.valid_id(a->Named_element),
        b->Named_element == nil_id() || m.valid_id(b->Named_element),
    ensures
        type_lub_spec(m, a, b) == named_view(type_lub_spec(m, a, b)->Named_element),
        ({
            let ea = a->Named_element;
            let eb = b->Named_element;
            let r = type_lub_spec(m, a, b)->Named_element;
            &&& r == any_id() || (m.subtype(ea, r) && m.subtype(eb, r))
            &&& m.subtype(ea, eb) ==> r == eb
            &&& m.subtype(eb, ea) && !m.subtype(ea, eb) ==> r == ea
            &&& forall|c: ElementId|
                m.ancestors(ea).contains(c) && m.ancestors(eb).contains(c) ==> #[trigger] m.subtype(r, c)
        }),
{
    let ea = a->Named_element;
    let eb = b->Named_element;
    lemma_lub_from_global(m, ea, eb);
    assert(type_lub_spec(m, a, b) == named_view(lub_from(m, ea, eb)));
    lemma_lub_is_upper_bound(m, ea, eb);
    assert forall|c: ElementId|
        m.ancestors(ea).contains(c) && m.ancestors(eb).contains(c) implies #[trigger] m.subtype(
        m.lub(ea, eb),
        c,
    ) by {
        lemma_lub_is_least(m, ea, eb, c);
    }
}

/// A type parameter contributes nothing to a bound: bounded with a type
/// that is not a parameter, from either side, it gives that type. Any type
/// bounded with itself is itself, and two references to the same element
/// keep that element.
pub proof fn lemma_type_lub_placeholder_and_same(m: PureModel, a: TypeExprView, b: TypeExprView)
    ensures
        a is Generic && !(b is Generic) ==> type_lub_spec(m, a, b) == b && type_lub_spec(m, b, a) == b,
        type_lub_spec(m, a, a) == a,
        a is Named && b is Named && a->Named_element == b->Named_element ==> type_lub_spec(m, a, b) is Named
            && type_lub_spec(m, a, b)->Named_element == a->Named_element,
{
}

/// Least upper bound of two type expressions. A type parameter on either
/// side is an unbound placeholder that contributes nothing, so the bound
/// is the other side (a function reference whose lifted type still holds
/// its callee's `Generic` placeholders must not widen a sibling
/// argument's concrete type to `Any`); only pairs not covered below fall
/// back to `Any`. Otherwise: two references to the same element keep
/// the element and combine type / multiplicity arguments (the side that
/// has arguments wins when the other has none; pairwise bounds when the
/// arities agree; none otherwise); references to different elements give
/// the element-level bound without arguments; two function types combine
/// position-wise (`Nil` for parameters only one side has) with the bound
/// of the returns; anything else gives `Any`.
pub open spec fn type_lub_spec(m: PureModel, a: TypeExprView, b: TypeExprView) -> TypeExprView
    decreases a,
{
    if a == b {
        a
    } else if a is Generic {
        b
    } else if b is Generic {
        a
    } else {
        match (a, b) {
            (
                TypeExprView::Named { element: ea, type_arguments: aa, multiplicity_arguments: am, .. },
                TypeExprView::Named { element: eb, type_arguments: ba, multiplicity_arguments: bm, .. },
            ) => {
                if ea == eb {
                    TypeExprView::Named {
                        element: ea,
                        type_arguments: if aa.len() == 0 {
                            ba
                        } else if ba.len() == 0 {
                            aa
                        } else if aa.len() == ba.len() {
                            Seq::new(
                                aa.len(),
                                |i: int|
                                    if 0 <= i < aa.len() {
                                        type_lub_spec(m, aa[i], ba[i])
                                    } else {
                                        TypeExprView::Unresolved
                                    },
                            )
                        } else {
                            Seq::empty()
                        },
                        multiplicity_arguments: if am.len() == 0 {
                            bm
                        } else if bm.len() == 0 {
                            am
                        } else if am.len() == bm.len() {
                            Seq::new(am.len(), |i: int| lub(am[i], bm[i]))
                        } else {
                            Seq::empty()
                        },
                        value_arguments: Seq::empty(),
                        source_info: None,
                    }
                } else {
                    named_view(lub_from(m, ea, eb))
                }
            },
            (
                TypeExprView::FunctionType {
                    parameters: ap,
                    return_type: ar,
                    return_multiplicity: arm,
                },
                TypeExprView::FunctionType {
                    parameters: bp,
                    return_type: br,
                    return_multiplicity: brm,
                },
            ) => TypeExprView::FunctionType {
                parameters: Seq::new(
                    if ap.len() >= bp.len() {
                        ap.len()
                    } else {
                        bp.len()
                    },
                    |i: int|
                        (
                            if 0 <= i < ap.len() && i < bp.len() {
                                type_lub_spec(m, ap[i].0, bp[i].0)
                            } else {
                                named_view(nil_id())
                            },
                            if 0 <= i < ap.len() && i < bp.len() {
                                lub(ap[i].1, bp[i].1)
                            } else if 0 <= i < ap.len() {
                                ap[i].1
                            } else if 0 <= i < bp.len() {
                                bp[i].1
                            } else {
                                MultView::PureOne
                            },
                        ),
                ),
                return_type: Box::new(type_lub_spec(m, *ar, *br)),
                return_multiplicity: lub(arm, brm),
            },
            _ => named_view(any_id()),
        }
    }
}

fn named_type(e: ElementId) -> (r: TypeExpr)
    ensures
        r@ == named_view(e),
{
    let r = TypeExpr::Named {
        element: e,
        type_arguments: Vec::new(),
        multiplicity_arguments: Vec::new(),
        value_arguments: Vec::new(),
        source_info: None,
    };
    proof {
        lemma_te_view_parts(r);
        assert(r@->type_arguments =~= Seq::<TypeExprView>::empty());
        assert(r@->multiplicity_arguments =~= Seq::<MultView>::empty());
        assert(r@->value_arguments =~= named_view(e)->value_arguments);
    }
    r
}

/// Least upper bound of two type expressions (see [`type_lub_spec`]):
/// a `Generic` side yields the other side, two references to the same
/// or to different elements are bounded through the hierarchy, two
/// function types are bounded position by position, and any other pair
/// gives `Any`.
#[verifier::loop_isolation(false)]
pub fn type_lub(a: &TypeExpr, b: &TypeExpr, model: &PureModel) -> (r: TypeExpr)
    requires
        ids_wf(*model, a@),
        ids_wf(*model, b@),
    ensures
        r@ == type_lub_spec(*model, a@, b@),
    decreases a,
{
    proof {
        lemma_te_view_parts(*a);
        lemma_te_view_parts(*b);
    }
    if a.same_as(b) {
        return a.duplicate();
    }
    if let TypeExpr::Generic(_) = a {
        return b.duplicate();
    }
    if let TypeExpr::Generic(_) = b {
        return a.duplicate();
    }
    match (a, b) {
        (
            TypeExpr::Named { element: ea, type_arguments: a_args, multiplicity_arguments: a_margs, .. },
            TypeExpr::Named { element: eb, type_arguments: b_args, multiplicity_arguments: b_margs, .. },
        ) => {
            if *ea == *eb {
                let lub_args: Vec<TypeExpr> = if a_args.len() == 0 {
                    dup_types(b_args)
                } else if b_args.len() == 0 {
                    dup_types(a_args)
                } else if a_args.len() == b_args.len() {
                    let mut out: Vec<TypeExpr> = Vec::new();
                    let mut i: usize = 0;
                    while i < a_args.len()
                        invariant
                            i <= a_args.len(),
                            out.len() == i,
                            forall|k: int|
                                0 <= k < i ==> #[trigger] te_view(out@[k]) == type_lub_spec(
                                    *model,
                                    a@->type_arguments[k],
                                    b@->type_arguments[k],
                                ),
                        decreases a_args.len() - i,
                    {
                        proof {
                            vstd::std_specs::vec::axiom_vec_index_decreases(*a_args, i as int);
                            assert(ids_wf(*model, a@->type_arguments[i as int]));
                            assert(ids_wf(*model, b@->type_arguments[i as int]));
                        }
                        let t = type_lub(&a_args[i], &b_args[i], model);
                        out.push(t);
                        i = i + 1;
                    }
                    out
                } else {
                    Vec::new()
                };
                let lub_margs: Vec<Multiplicity> = if a_margs.len() == 0 {
                    dup_mults(b_margs)
                } else if b_margs.len() == 0 {
                    dup_mults(a_margs)
                } else if a_margs.len() == b_margs.len() {
                    let mut out: Vec<Multiplicity> = Vec::new();
                    let mut i: usize = 0;
                    while i < a_margs.len()
                        invariant
                            i <= a_margs.len(),
                            out.len() == i,
                            forall|k: int|
                                0 <= k < i ==> #[trigger] out@[k]@ == lub(
                                    a_margs@[k]@,
                                    b_margs@[k]@,
                                ),
                        decreases a_margs.len() - i,
                    {
                        out.push(mult_lub(&a_margs[i], &b_margs[i]));
                        i = i + 1;
                    }
                    out
                } else {
                    Vec::new()
                };
                let r = TypeExpr::Named {
                    element: *ea,
                    type_arguments: lub_args,
                    multiplicity_arguments: lub_margs,
                    value_arguments: Vec::new(),
                    source_info: None,
                };
                proof {
                    lemma_te_view_parts(r);
                    let spec_r = type_lub_spec(*model, a@, b@);
                    assert(r@->type_arguments =~= spec_r->type_arguments);
                    assert(r@->multiplicity_arguments =~= spec_r->multiplicity_arguments);
                    assert(r@->value_arguments =~= spec_r->value_arguments);
                }
                r
            } else {
                named_type(least_upper_bound_ids(*ea, *eb, model))
            }
        },
        (
            TypeExpr::FunctionType {
                parameters: a_params,
                return_type: a_ret,
                return_multiplicity: a_ret_mult,
            },
            TypeExpr::FunctionType {
                parameters: b_params,
                return_type: b_ret,
                return_multiplicity: b_ret_mult,
            },
        ) => {
            let len = if a_params.len() >= b_params.len() {
                a_params.len()
            } else {
                b_params.len()
            };
            let mut params: Vec<(TypeExpr, Multiplicity)> = Vec::new();
            let mut i: usize = 0;
            let ghost spec_r = type_lub_spec(*model, a@, b@);
            while i < len
                invariant
                    i <= len,
                    params.len() == i,
                    spec_r == type_lub_spec(*model, a@, b@),
                    forall|k: int|
                        0 <= k < i ==> (te_view(#[trigger] params@[k].0), params@[k].1@)
                            == spec_r->parameters[k],
                decreases len - i,
            {
                let p_ty = if i < a_params.len() && i < b_params.len() {
                    proof {
                        vstd::std_specs::vec::axiom_vec_index_decreases(*a_params, i as int);
                        assert(ids_wf(*model, a@->parameters[i as int].0));
                        assert(ids_wf(*model, b@->parameters[i as int].0));
                    }
                    type_lub(&a_params[i].0, &b_params[i].0, model)
                } else {
                    named_type(nil_id())
                };
                let p_mult = if i < a_params.len() && i < b_params.len() {
                    mult_lub(&a_params[i].1, &b_params[i].1)
                } else if i < a_params.len() {
                    a_params[i].1.duplicate()
                } else if i < b_params.len() {
                    b_params[i].1.duplicate()
                } else {
                    Multiplicity::PureOne
                };
                params.push((p_ty, p_mult));
                i = i + 1;
            }
            proof {
                assert(ids_wf(*model, *a@->return_type));
                assert(ids_wf(*model, *b@->return_type));
            }
            let rt = type_lub(&**a_ret, &**b_ret, model);
            let rm = mult_lub(a_ret_mult, b_ret_mult);
            let r = TypeExpr::FunctionType {
                parameters: params,
                return_type: Box::new(rt),
                return_multiplicity: rm,
            };
            proof {
                lemma_te_view_parts(r);
                assert(r@->parameters =~= spec_r->parameters);
            }
            r
        },
        _ => named_type(any_id()),
    }
}


/// Collection-element bound: identical types stay; two references to the
/// same element with the same arities combine their arguments pairwise;
/// references to different elements give the element-level bound without
/// arguments; anything else keeps the first type.
pub open spec fn typeexpr_lub_spec(m: PureModel, a: TypeExprView, b: TypeExprView) -> TypeExprView
    decreases a,
{
    if a == b {
        a
    } else {
        match (a, b) {
            (
                TypeExprView::Named { element: ea, type_arguments: aa, multiplicity_arguments: am, .. },
                TypeExprView::Named { element: eb, type_arguments: ba, multiplicity_arguments: bm, .. },
            ) => {
                if ea == eb && aa.len() == ba.len() && am.len() == bm.len() {
                    TypeExprView::Named {
                        element: ea,
                        type_arguments: Seq::new(
                            aa.len(),
                            |i: int|
                                if 0 <= i < aa.len() {
                                    typeexpr_lub_spec(m, aa[i], ba[i])
                                } else {
                                    TypeExprView::Unresolved
                                },
                        ),
                        multiplicity_arguments: Seq::new(am.len(), |i: int| lub(am[i], bm[i])),
                        value_arguments: Seq::empty(),
                        source_info: None,
                    }
                } else {
                    named_view(lub_from(m, ea, eb))
                }
            },
            _ => a,
        }
    }
}

/// Least upper bound used for collection literals (see
/// [`typeexpr_lub_spec`]).
#[verifier::loop_isolation(false)]
pub fn typeexpr_lub(a: &TypeExpr, b: &TypeExpr, model: &PureModel) -> (r: TypeExpr)
    requires
        ids_wf(*model, a@),
        ids_wf(*model, b@),
    ensures
        r@ == typeexpr_lub_spec(*model, a@, b@),
    decreases a,
{
    proof {
        lemma_te_view_parts(*a);
        lemma_te_view_parts(*b);
    }
    if a.same_as(b) {
        return a.duplicate();
    }
    match (a, b) {
        (
            TypeExpr::Named { element: a_eid, type_arguments: a_args, multiplicity_arguments: a_margs, .. },
            TypeExpr::Named { element: b_eid, type_arguments: b_args, multiplicity_arguments: b_margs, .. },
        ) => {
            if *a_eid == *b_eid && a_args.len() == b_args.len() && a_margs.len() == b_margs.len() {
                let mut lub_args: Vec<TypeExpr> = Vec::new();
                let mut i: usize = 0;
                while i < a_args.len()
                    invariant
                        i <= a_args.len(),
                        lub_args.len() == i,
                        forall|k: int|
                            0 <= k < i ==> #[trigger] te_view(lub_args@[k]) == typeexpr_lub_spec(
                                *model,
                                a@->type_arguments[k],
                                b@->type_arguments[k],
                            ),
                    decreases a_args.len() - i,
                {
                    proof {
                        vstd::std_specs::vec::axiom_vec_index_decreases(*a_args, i as int);
                        assert(ids_wf(*model, a@->type_arguments[i as int]));
                        assert(ids_wf(*model, b@->type_arguments[i as int]));
                    }
                    lub_args.push(typeexpr_lub(&a_args[i], &b_args[i], model));
                    i = i + 1;
                }
                let mut lub_margs: Vec<Multiplicity> = Vec::new();
                let mut j: usize = 0;
                while j < a_margs.len()
                    invariant
                        j <= a_margs.len(),
                        lub_margs.len() == j,
                        forall|k: int|
                            0 <= k < j ==> #[trigger] lub_margs@[k]@ == lub(
                                a_margs@[k]@,
                                b_margs@[k]@,
                            ),
                    decreases a_margs.len() - j,
                {
                    lub_margs.push(mult_lub(&a_margs[j], &b_margs[j]));
                    j = j + 1;
                }
                let r = TypeExpr::Named {
                    element: *a_eid,
                    type_arguments: lub_args,
                    multiplicity_arguments: lub_margs,
                    value_arguments: Vec::new(),
                    source_info: None,
                };
                proof {
                    lemma_te_view_parts(r);
                    let spec_r = typeexpr_lub_spec(*model, a@, b@);
                    assert(r@->type_arguments =~= spec_r->type_arguments);
                    assert(r@->multiplicity_arguments =~= spec_r->multiplicity_arguments);
                    assert(r@->value_arguments =~= spec_r->value_arguments);
                }
                return r;
            }
            named_type(least_upper_bound_ids(*a_eid, *b_eid, model))
        },
        _ => a.duplicate(),
    }
}


// ---------------------------------------------------------------------------
// Type distance
// ---------------------------------------------------------------------------

/// Number of supertype hops on the shortest path from `child` to `parent`
/// (`None` when `parent` is not reachable).
pub open spec fn dist_r(
    m: PureModel,
    rank: spec_fn(ElementId) -> nat,
    child: ElementId,
    parent: ElementId,
) -> Option<nat>
    decreases rank(child), 1nat, 0nat,
{
    if child == parent {
        Some(0)
    } else if !m.valid_id(child) {
        None
    } else {
        match m.elem(child) {
            Element::PrimitiveType(p) => match p.super_type {
                Some(sup) => {
                    if m.direct_supers(child).len() == 1 && m.direct_supers(child)[0] == sup && rank(sup)
                        < rank(child) {
                        match dist_r(m, rank, sup, parent) {
                            Some(d) => Some(d + 1),
                            None => None,
                        }
                    } else {
                        None
                    }
                },
                None => None,
            },
            Element::Class(c) => {
                if m.direct_supers(child) == named_ids(c.super_types@) {
                    min_dist(m, rank, named_ids(c.super_types@), parent, rank(child))
                } else {
                    None
                }
            },
            _ => None,
        }
    }
}

/// The smallest `distance + 1` over the elements of `s`.
pub open spec fn min_dist(
    m: PureModel,
    rank: spec_fn(ElementId) -> nat,
    s: Seq<ElementId>,
    parent: ElementId,
    bound: nat,
) -> Option<nat>
    decreases bound, 0nat, s.len(),
{
    if s.len() == 0 {
        None
    } else {
        let rest = min_dist(m, rank, s.drop_last(), parent, bound);
        match if rank(s.last()) < bound {
            dist_r(m, rank, s.last(), parent)
        } else {
            None
        } {
            Some(d) => match rest {
                Some(r) => Some(if r <= d + 1 { r } else { d + 1 }),
                None => Some(d + 1),
            },
            None => rest,
        }
    }
}

impl PureModel {
    /// Shortest supertype distance from `child` to `parent`, read on the
    /// hierarchy reachable from `child`.
    pub open spec fn distance(&self, child: ElementId, parent: ElementId) -> Option<nat> {
        dist_r(*self, local_ranking(*self, child).0, child, parent)
    }
}

/// Two rankings of sets holding `child` give the same distance.
proof fn lemma_dist_ranking_free(
    m: PureModel,
    r1: spec_fn(ElementId) -> nat,
    s1: Set<ElementId>,
    r2: spec_fn(ElementId) -> nat,
    s2: Set<ElementId>,
    child: ElementId,
    parent: ElementId,
)
    requires
        chain_ranked(m, r1, s1),
        chain_ranked(m, r2, s2),
        s1.contains(child),
        s2.contains(child),
    ensures
        dist_r(m, r1, child, parent) == dist_r(m, r2, child, parent),
    decreases r1(child), 1nat, 0nat,
{
    if child != parent && m.valid_id(child) {
        match m.elem(child) {
            Element::PrimitiveType(p) => {
                if let Some(sup) = p.super_type {
                    if m.direct_supers(child).len() == 1 && m.direct_supers(child)[0] == sup {
                        assert(s1.contains(child) && 0 <= 0 < m.direct_supers(child).len());
                        assert(s2.contains(child));
                        lemma_dist_ranking_free(m, r1, s1, r2, s2, sup, parent);
                    }
                }
            },
            Element::Class(c) => {
                let sup = named_ids(c.super_types@);
                if m.direct_supers(child) == sup {
                    assert forall|k: int| 0 <= k < sup.len() implies s1.contains(#[trigger] sup[k]) && s2.contains(
                        sup[k],
                    ) && r1(sup[k]) < r1(child) && r2(sup[k]) < r2(child) by {
                        assert(s1.contains(child) && 0 <= k < m.direct_supers(child).len());
                        assert(s2.contains(child));
                    }
                    lemma_min_dist_ranking_free(m, r1, s1, r2, s2, sup, parent, r1(child), r2(child));
                }
            },
            _ => {},
        }
    }
}

/// Two rankings of sets holding every member of `s` give the same
/// smallest distance.
proof fn lemma_min_dist_ranking_free(
    m: PureModel,
    r1: spec_fn(ElementId) -> nat,
    s1: Set<ElementId>,
    r2: spec_fn(ElementId) -> nat,
    s2: Set<ElementId>,
    s: Seq<ElementId>,
    parent: ElementId,
    b1: nat,
    b2: nat,
)
    requires
        chain_ranked(m, r1, s1),
        chain_ranked(m, r2, s2),
        forall|k: int|
            0 <= k < s.len() ==> s1.contains(#[trigger] s[k]) && s2.contains(s[k]) && r1(s[k]) < b1 && r2(s[k]) < b2,
    ensures
        min_dist(m, r1, s, parent, b1) == min_dist(m, r2, s, parent, b2),
    decreases b1, 0nat, s.len(),
{
    if s.len() > 0 {
        assert forall|k: int| 0 <= k < s.drop_last().len() implies s1.contains(#[trigger] s.drop_last()[k])
            && s2.contains(s.drop_last()[k]) && r1(s.drop_last()[k]) < b1 && r2(s.drop_last()[k]) < b2 by {
            assert(s.drop_last()[k] == s[k]);
        }
        lemma_min_dist_ranking_free(m, r1, s1, r2, s2, s.drop_last(), parent, b1, b2);
        assert(s1.contains(s[s.len() - 1]));
        lemma_dist_ranking_free(m, r1, s1, r2, s2, s.last(), parent);
    }
}

/// No distance read on the hierarchy reachable from an element reaches
/// `usize::MAX`, so that one more hop still fits a machine word.
pub open spec fn distances_fit_to(m: PureModel, parent: ElementId) -> bool {
    forall|x: ElementId|
        hierarchy_wf_from(m, x) ==> (#[trigger] m.distance(x, parent) matches Some(d) ==> d < usize::MAX)
}

fn type_distance_rec(
    child: ElementId,
    parent: ElementId,
    model: &PureModel,
    Ghost(rank): Ghost<spec_fn(ElementId) -> nat>,
    Ghost(reach): Ghost<Set<ElementId>>,
) -> (r: Option<usize>)
    requires
        chain_ranked(*model, rank, reach),
        child == parent || (model.valid_id(child) && reach.contains(child)),
        forall|x: ElementId|
            reach.contains(x) ==> (#[trigger] dist_r(*model, rank, x, parent) matches Some(d) ==> d < usize::MAX),
    ensures
        match r {
            Some(d) => dist_r(*model, rank, child, parent) == Some(d as nat),
            None => dist_r(*model, rank, child, parent) is None,
        },
    decreases rank(child),
{
    if child == parent {
        return Some(0);
    }
    match model.get_element(child) {
        Element::PrimitiveType(p) => {
            match p.super_type {
                Some(sup) => {
                    assert(model.direct_supers(child) =~= seq![sup]);
                    assert(model.direct_supers(child)[0] == sup);
                    assert(reach.contains(child) && 0 <= 0 < model.direct_supers(child).len());
                    match type_distance_rec(sup, parent, model, Ghost(rank), Ghost(reach)) {
                        Some(d) => {
                            assert(dist_r(*model, rank, sup, parent) == Some(d as nat));
                            Some(d + 1)
                        },
                        None => None,
                    }
                },
                None => None,
            }
        },
        Element::Class(c) => {
            let sts = &c.super_types;
            let ghost supers = named_ids(sts@);
            let mut min_d: Option<usize> = None;
            let mut i: usize = 0;
            assert(sts@.take(0) =~= Seq::<TypeExpr>::empty());
            while i < sts.len()
                invariant
                    chain_ranked(*model, rank, reach),
                    model.valid_id(child),
                    reach.contains(child),
                    child != parent,
                    forall|x: ElementId|
                        reach.contains(x) ==> (#[trigger] dist_r(*model, rank, x, parent) matches Some(d) ==> d
                            < usize::MAX),
                    model.elem(child) == Element::Class(*c),
                    supers == named_ids(sts@),
                    supers == model.direct_supers(child),
                    i <= sts.len(),
                    named_ids(sts@.take(i as int)).len() <= supers.len(),
                    named_ids(sts@.take(i as int)) == supers.take(
                        named_ids(sts@.take(i as int)).len() as int,
                    ),
                    match min_d {
                        Some(d) => min_dist(
                            *model,
                            rank,
                            named_ids(sts@.take(i as int)),
                            parent,
                            rank(child),
                        ) == Some(d as nat),
                        None => min_dist(
                            *model,
                            rank,
                            named_ids(sts@.take(i as int)),
                            parent,
                            rank(child),
                        ) is None,
                    },
                decreases sts.len() - i,
            {
                proof {
                    lemma_named_ids_step(sts@, i as int);
                    lemma_named_ids_take(sts@, i + 1);
                    lemma_named_ids_take(sts@, i as int);
                    let pre = named_ids(sts@.take(i as int));
                    assert forall|k: int| 0 <= k < pre.len() implies rank(#[trigger] pre[k]) < rank(
                        child,
                    ) by {
                        assert(pre[k] == supers[k]);
                        assert(model.direct_supers(child)[k] == supers[k]);
                    }
                    let nxt = named_ids(sts@.take(i + 1));
                    assert forall|k: int| 0 <= k < nxt.len() implies rank(#[trigger] nxt[k]) < rank(
                        child,
                    ) by {
                        assert(nxt[k] == supers[k]);
                        assert(model.direct_supers(child)[k] == supers[k]);
                    }
                }
                match &sts[i] {
                    TypeExpr::Named { element: sup, .. } => {
                        let ghost k = named_ids(sts@.take(i as int)).len() as int;
                        assert(named_ids(sts@.take(i + 1))[k] == *sup);
                        assert(supers[k] == *sup);
                        assert(model.direct_supers(child)[k] == *sup);
                        assert(reach.contains(child) && 0 <= k < model.direct_supers(child).len());
                        proof {
                            let nxt = named_ids(sts@.take(i + 1));
                            assert(nxt.drop_last() =~= named_ids(sts@.take(i as int)));
                            assert(nxt.last() == *sup);
                        }
                        match type_distance_rec(*sup, parent, model, Ghost(rank), Ghost(reach)) {
                            Some(d) => {
                                assert(dist_r(*model, rank, *sup, parent) == Some(d as nat));
                                let dist = d + 1;
                                min_d = match min_d {
                                    Some(m0) => Some(if m0 <= dist { m0 } else { dist }),
                                    None => Some(dist),
                                };
                            },
                            None => {},
                        }
                    },
                    _ => {},
                }
                i = i + 1;
            }
            assert(sts@.take(i as int) =~= sts@);
            min_d
        },
        _ => None,
    }
}

/// Shortest number of supertype hops from `child` to `parent`, or `None`
/// when `child` is not a subtype of `parent`. Only the supertypes
/// reachable from `child` are read: they must be in the model and
/// acyclic.
pub(crate) fn type_distance(child: ElementId, parent: ElementId, model: &PureModel) -> (r: Option<usize>)
    requires
        child == parent || (model.valid_id(child) && hierarchy_wf_from(*model, child)),
        distances_fit_to(*model, parent),
    ensures
        match r {
            Some(d) => model.distance(child, parent) == Some(d as nat),
            None => model.distance(child, parent) is None,
        },
{
    if child == parent {
        return Some(0);
    }
    let ghost rr = local_ranking(*model, child);
    proof {
        assert forall|x: ElementId|
            rr.1.contains(x) implies (#[trigger] dist_r(*model, rr.0, x, parent) matches Some(d) ==> d
            < usize::MAX) by {
            assert(rr.1.contains(x) && chain_ranked(*model, rr.0, rr.1));
            assert(hierarchy_wf_from(*model, x));
            let lx = local_ranking(*model, x);
            lemma_dist_ranking_free(*model, rr.0, rr.1, lx.0, lx.1, x, parent);
            assert(hierarchy_wf_from(*model, x) ==> (model.distance(x, parent) matches Some(d) ==> d
                < usize::MAX));
        }
    }
    type_distance_rec(child, parent, model, Ghost(rr.0), Ghost(rr.1))
}


// ---------------------------------------------------------------------------
// Relation columns and function-type multiplicities
// ---------------------------------------------------------------------------

/// The relation columns reachable in a type: a relation itself, or,
/// recursively, the first type argument of a `Named` type.
pub open spec fn relation_columns(t: TypeExpr) -> Option<Seq<RelationColumnTypeExpr>>
    decreases t,
{
    match t {
        TypeExpr::Relation(cols) => Some(cols@),
        TypeExpr::Named { type_arguments, .. } => if type_arguments.len() > 0 {
            relation_columns(type_arguments@[0])
        } else {
            None
        },
        _ => None,
    }
}

/// The relation columns of `te` (`Relation(cols)`, `RelationType<...>`,
/// `TDS<RelationType<...>>`, ...), if any.
pub fn extract_relation_columns(te: &TypeExpr) -> (r: Option<&[RelationColumnTypeExpr]>)
    ensures
        match r {
            Some(s) => relation_columns(*te) == Some(s@),
            None => relation_columns(*te) is None,
        },
    decreases te,
{
    match te {
        TypeExpr::Relation(cols) => Some(cols.as_slice()),
        TypeExpr::Named { type_arguments, .. } => {
            if type_arguments.len() > 0 {
                extract_relation_columns(&type_arguments[0])
            } else {
                None
            }
        },
        _ => None,
    }
}

/// `j` is the first column of `cols` named `name`.
pub open spec fn first_column_at(cols: Seq<RelationColumnTypeExpr>, name: Seq<char>, j: int) -> bool {
    &&& 0 <= j < cols.len()
    &&& cols[j].name@ == name
    &&& forall|k: int| 0 <= k < j ==> (#[trigger] cols[k]).name@ != name
}

/// Some column of `cols` is named `name`.
pub open spec fn has_column(cols: Seq<RelationColumnTypeExpr>, name: Seq<char>) -> bool {
    exists|j: int| 0 <= j < cols.len() && (#[trigger] cols[j]).name@ == name
}

/// The argument column matched by name to parameter column `pc` fits it:
/// nominally compatible type, compatible multiplicity.
pub open spec fn column_fits(m: PureModel, ac: RelationColumnTypeExpr, pc: RelationColumnTypeExpr) -> bool {
    m.type_compatible(outer_id(ac.type_expr@), pc.type_expr@) && mult_compatible(
        Some(ac.multiplicity@),
        pc.multiplicity@,
    )
}

/// Relation-column compatibility: a parameter without columns (or with an
/// empty column list) and an argument whose columns are unknown accept
/// anything; otherwise every parameter column needs an argument column of
/// the same name (the first one) that fits it. Extra argument columns are
/// allowed.
pub open spec fn columns_compatible(m: PureModel, arg: TypeExpr, param: TypeExpr) -> bool {
    match relation_columns(param) {
        None => true,
        Some(pc) => pc.len() == 0 || match relation_columns(arg) {
            None => true,
            Some(ac) => forall|i: int|
                #![trigger pc[i]]
                0 <= i < pc.len() ==> has_column(ac, pc[i].name@) && column_fits(
                    m,
                    ac[choose|j: int| first_column_at(ac, pc[i].name@, j)],
                    pc[i],
                ),
        },
    }
}

/// Every column type of `t` names an element that can be looked up (or
/// `Nil`).
pub open spec fn column_ids_valid(m: PureModel, t: TypeExpr) -> bool {
    match relation_columns(t) {
        None => true,
        Some(cols) => forall|j: int|
            0 <= j < cols.len() ==> (outer_id((#[trigger] cols[j]).type_expr@) matches Some(a)
                ==> (m.valid_id(a) && hierarchy_wf_from(m, a)) || a == nil_id()),
    }
}

fn find_column(cols: &[RelationColumnTypeExpr], name: &String) -> (r: Option<usize>)
    ensures
        match r {
            Some(j) => first_column_at(cols@, name@, j as int),
            None => !has_column(cols@, name@),
        },
{
    let mut j: usize = 0;
    while j < cols.len()
        invariant
            j <= cols@.len(),
            forall|k: int| 0 <= k < j ==> (#[trigger] cols@[k]).name@ != name@,
        decreases cols.len() - j,
    {
        if cols[j].name == *name {
            return Some(j);
        }
        j = j + 1;
    }
    None
}

/// Whether `arg_te`'s relation columns satisfy `param`'s.
pub fn is_relation_columns_compatible(arg_te: &TypeExpr, param: &TypeExpr, model: &PureModel) -> (r:
    bool)
    requires
        column_ids_valid(*model, *arg_te),
    ensures
        r == columns_compatible(*model, *arg_te, *param),
{
    let param_cols = match extract_relation_columns(param) {
        None => {
            return true;
        },
        Some(c) => c,
    };
    if param_cols.len() == 0 {
        return true;
    }
    let arg_cols = match extract_relation_columns(arg_te) {
        None => {
            return true;
        },
        Some(c) => c,
    };
    let mut i: usize = 0;
    while i < param_cols.len()
        invariant
            column_ids_valid(*model, *arg_te),
            relation_columns(*arg_te) == Some(arg_cols@),
            relation_columns(*param) == Some(param_cols@),
            param_cols@.len() > 0,
            i <= param_cols@.len(),
            forall|k: int|
                #![trigger param_cols@[k]]
                0 <= k < i ==> has_column(arg_cols@, param_cols@[k].name@) && column_fits(
                    *model,
                    arg_cols@[choose|j: int| first_column_at(arg_cols@, param_cols@[k].name@, j)],
                    param_cols@[k],
                ),
        decreases param_cols.len() - i,
    {
        let pc = &param_cols[i];
        assert(param_cols@[i as int] == *pc);
        let j = match find_column(arg_cols, &pc.name) {
            Some(j) => j,
            None => {
                return false;
            },
        };
        let ac = &arg_cols[j];
        proof {
            assert(first_column_at(arg_cols@, pc.name@, j as int));
            let c = choose|c: int| first_column_at(arg_cols@, pc.name@, c);
            if c < j {
                assert(arg_cols@[c].name@ != pc.name@);
            } else if j < c {
                assert(arg_cols@[j as int].name@ != pc.name@);
            }
            lemma_te_view_parts(ac.type_expr);
        }
        let outer = match &ac.type_expr {
            TypeExpr::Named { element, .. } => Some(*element),
            _ => None,
        };
        assert(outer == outer_id(ac.type_expr@));
        assert(outer_id(arg_cols@[j as int].type_expr@) matches Some(a) ==> (model.valid_id(a)
            && hierarchy_wf_from(*model, a)) || a == nil_id());
        if !is_type_compatible(outer, &pc.type_expr, model) {
            return false;
        }
        if !is_multiplicity_compatible(Some(&ac.multiplicity), &pc.multiplicity) {
            return false;
        }
        i = i + 1;
    }
    true
}

/// The return multiplicity of the first function type in `s`.
pub open spec fn first_function_return_mult(s: Seq<TypeExpr>) -> Option<Multiplicity>
    decreases s.len(),
{
    if s.len() == 0 {
        None
    } else {
        match s[0] {
            TypeExpr::FunctionType { return_multiplicity, .. } => Some(return_multiplicity),
            _ => first_function_return_mult(s.drop_first()),
        }
    }
}

/// The declared return multiplicity of a function-typed parameter: of a
/// `FunctionType`, or of the first `FunctionType` among a `Named` type's
/// type arguments (`Function<{T[1]->V[m]}>`).
pub open spec fn function_return_mult(t: TypeExpr) -> Option<Multiplicity> {
    match t {
        TypeExpr::Named { type_arguments, .. } => first_function_return_mult(type_arguments@),
        TypeExpr::FunctionType { return_multiplicity, .. } => Some(return_multiplicity),
        _ => None,
    }
}

/// The return multiplicity of a function-typed parameter, if it has one.
pub fn extract_function_type_return_mult(param_type: &TypeExpr) -> (r: Option<&Multiplicity>)
    ensures
        match r {
            Some(m) => function_return_mult(*param_type) == Some(*m),
            None => function_return_mult(*param_type) is None,
        },
{
    match param_type {
        TypeExpr::Named { type_arguments, .. } => {
            let mut i: usize = 0;
            assert(type_arguments@.skip(0) =~= type_arguments@);
            while i < type_arguments.len()
                invariant
                    i <= type_arguments@.len(),
                    function_return_mult(*param_type) == first_function_return_mult(type_arguments@),
                    first_function_return_mult(type_arguments@) == first_function_return_mult(
                        type_arguments@.skip(i as int),
                    ),
                decreases type_arguments.len() - i,
            {
                assert(type_arguments@.skip(i as int)[0] == type_arguments@[i as int]);
                assert(type_arguments@.skip(i as int).drop_first() =~= type_arguments@.skip(i + 1));
                match &type_arguments[i] {
                    TypeExpr::FunctionType { return_multiplicity, .. } => {
                        assert(type_arguments@[i as int]->return_multiplicity
                            == *return_multiplicity);
                        assert(first_function_return_mult(type_arguments@.skip(i as int)) == Some(
                            *return_multiplicity,
                        ));
                        return Some(return_multiplicity);
                    },
                    _ => {},
                }
                i = i + 1;
            }
            None
        },
        TypeExpr::FunctionType { return_multiplicity, .. } => Some(return_multiplicity),
        _ => None,
    }
}

} // verus!

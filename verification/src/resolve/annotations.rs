//! Resolution of annotations as written — stereotypes `<<profile.value>>`
//! and tagged values `{profile.tag = 'value'}` — and of the element
//! pointers they name.

use vstd::prelude::*;

use crate::generics::strs_view;
use crate::ids::{ElementId, PackageId};
use crate::milestoning::str_eq;
use crate::milestoning::synthesis::arenas_parallel;
use crate::model::{Element, PureModel};
use crate::nodes::{SpannedString, StereotypeRef, StereotypeRefView, TaggedValueRef, TaggedValueRefView};
use crate::purem::fqn_path::join_path;
use crate::resolve::type_ref::{qualified_path, QualifiedName, ResolutionContext};
use crate::resolve::unqualified::{errors_view, in_package, lookup_name, CachedResolution, ResolutionError, ResolutionErrorView};
use crate::types::{SourceInfo, SourceInfoView};

verus! {

/// What an element pointer designates: an element, or a package (the root
/// for `::` and `Root`, a root child package as a last resort).
#[derive(Clone, Copy, Debug, PartialEq, Eq, Structural)]
pub enum ResolvedRef {
    Element(ElementId),
    Package(PackageId),
}

/// A stereotype application as written.
#[derive(Debug)]
pub struct StereotypePtr {
    pub profile: QualifiedName,
    pub value: String,
    pub source_info: SourceInfo,
}

/// A tagged value as written.
#[derive(Debug)]
pub struct TaggedValuePtr {
    pub profile: QualifiedName,
    pub tag: String,
    pub value: String,
    pub source_info: SourceInfo,
}

/// What an element pointer resolves to and the errors reported: `::` and
/// `Root` are the root package; a qualified pointer is looked up in its
/// package; a simple name goes through the imports and, when that fails,
/// may name a child package of the root (the failure to find an element
/// of that name is then withdrawn).
pub open spec fn ptr_outcome(ctx: ResolutionContext, ptr: QualifiedName, si: SourceInfoView) -> (
    Option<ResolvedRef>,
    Seq<ResolutionErrorView>,
) {
    let m = *ctx.model;
    match ptr.package {
        None => if ptr.name@.len() == 0 || ptr.name@ == "Root"@ {
            (Some(ResolvedRef::Package(m.root_package)), Seq::empty())
        } else {
            match ctx.outcome(ptr.name@, si) {
                Ok(id) => (Some(ResolvedRef::Element(id)), Seq::empty()),
                Err(e) => match m.child_pkg_in(m.pkg(m.root_package).children_packages@, ptr.name@) {
                    Some(p) => (
                        Some(ResolvedRef::Package(p)),
                        if e matches ResolutionErrorView::UnresolvedElement { path, .. } && path == ptr.name@ {
                            Seq::empty()
                        } else {
                            seq![e]
                        },
                    ),
                    None => (None, seq![e]),
                },
            }
        },
        Some(pkg) => match in_package(m, strs_view(pkg@), ptr.name@) {
            Some(id) => (Some(ResolvedRef::Element(id)), Seq::empty()),
            None => (
                None,
                seq![
                    ResolutionErrorView::UnresolvedElement {
                        path: join_path(strs_view(pkg@).push(ptr.name@)),
                        source_info: si,
                    },
                ],
            ),
        },
    }
}

/// Resolves an element pointer (see [`ptr_outcome`]).
pub fn resolve_element_ptr(
    ptr: &QualifiedName,
    source_info: &SourceInfo,
    ctx: &ResolutionContext,
    cache: &mut Vec<(String, CachedResolution)>,
    errors: &mut Vec<ResolutionError>,
) -> (r: Option<ResolvedRef>)
    requires
        ctx.valid(),
        ctx.memo_ok(old(cache)@),
    ensures
        ctx.memo_ok(final(cache)@),
        r == ptr_outcome(*ctx, *ptr, source_info@).0,
        errors_view(final(errors)@) == errors_view(old(errors)@) + ptr_outcome(*ctx, *ptr, source_info@).1,
{
    let model = ctx.model;
    match &ptr.package {
        None => {
            if ptr.name.as_str().is_empty() || str_eq(ptr.name.as_str(), "Root") {
                assert(errors_view(errors@) =~= errors_view(old(errors)@) + Seq::<ResolutionErrorView>::empty());
                return Some(ResolvedRef::Package(model.root_package));
            }
            let ghost e0 = errors_view(errors@);
            match lookup_name(&ptr.name, source_info, model, ctx.import_scopes, ctx.self_package, cache, errors) {
                Some(id) => {
                    assert(errors_view(errors@) =~= errors_view(old(errors)@) + Seq::<ResolutionErrorView>::empty());
                    Some(ResolvedRef::Element(id))
                },
                None => {
                    let ghost e = errors_view(errors@).last();
                    assert(errors_view(errors@) =~= e0.push(e));
                    match model.find_child_package(model.root_package, &ptr.name) {
                        Some(p) => {
                            let withdraw = match errors.last() {
                                Some(ResolutionError::UnresolvedElement { path, .. }) => str_eq(
                                    path.as_str(),
                                    ptr.name.as_str(),
                                ),
                                _ => false,
                            };
                            assert(errors@.last()@ == e);
                            if withdraw {
                                let ghost before = errors@;
                                errors.pop();
                                assert(errors@ =~= before.drop_last());
                                assert(errors_view(errors@) =~= errors_view(before).drop_last());
                                assert(errors_view(before) == e0.push(e));
                                assert(errors_view(errors@) =~= errors_view(old(errors)@) + Seq::<ResolutionErrorView>::empty());
                            } else {
                                assert(errors_view(errors@) =~= errors_view(old(errors)@) + seq![e]);
                            }
                            Some(ResolvedRef::Package(p))
                        },
                        None => {
                            assert(errors_view(errors@) =~= errors_view(old(errors)@) + seq![e]);
                            None
                        },
                    }
                },
            }
        },
        Some(pkg) => match model.resolve_in_package(pkg.as_slice(), &ptr.name) {
            Some(id) => {
                assert(errors_view(errors@) =~= errors_view(old(errors)@) + Seq::<ResolutionErrorView>::empty());
                Some(ResolvedRef::Element(id))
            },
            None => {
                let e = ResolutionError::UnresolvedElement {
                    path: qualified_path(pkg, &ptr.name),
                    source_info: source_info.duplicate(),
                };
                errors.push(e);
                assert(errors_view(errors@) =~= errors_view(old(errors)@) + seq![e@]);
                None
            },
        },
    }
}


/// The names a list of declarations declares.
pub open spec fn decl_names(s: Seq<SpannedString>) -> Seq<Seq<char>> {
    s.map_values(|d: SpannedString| d.value@)
}

/// What is reported of the profile `id` an annotation named `name` uses:
/// nothing when it is a profile declaring that stereotype (or, with
/// `for_tag`, tag); the declared names when it does not; that it is no
/// profile when it is another element.
pub open spec fn profile_check(m: PureModel, id: ElementId, name: Seq<char>, for_tag: bool, si: SourceInfoView) -> Seq<
    ResolutionErrorView,
> {
    if m.valid_id(id) {
        match m.elem(id) {
            Element::Profile(p) => {
                let decls = if for_tag {
                    p.tags@
                } else {
                    p.stereotypes@
                };
                if decl_names(decls).contains(name) {
                    Seq::empty()
                } else {
                    seq![
                        ResolutionErrorView::UnknownAnnotation {
                            profile: m.node(id).name@,
                            name,
                            available: decl_names(decls),
                            for_tag,
                            source_info: si,
                        },
                    ]
                }
            },
            _ => seq![ResolutionErrorView::NotAProfile { target: m.node(id).name@, for_tag, source_info: si }],
        }
    } else {
        Seq::empty()
    }
}

/// The profile an annotation names and the errors reported: a pointer
/// that resolves to a package is reported and dropped.
pub open spec fn annotation_outcome(
    ctx: ResolutionContext,
    profile: QualifiedName,
    name: Seq<char>,
    for_tag: bool,
    si: SourceInfoView,
) -> (Option<ElementId>, Seq<ResolutionErrorView>) {
    let r = ptr_outcome(ctx, profile, si);
    match r.0 {
        None => (None, r.1),
        Some(ResolvedRef::Package(_)) => (
            None,
            r.1.push(ResolutionErrorView::UnresolvedProfile { path: profile.name@, for_tag, source_info: si }),
        ),
        Some(ResolvedRef::Element(id)) => (Some(id), r.1 + profile_check(*ctx.model, id, name, for_tag, si)),
    }
}

/// The first `n` stereotype applications, resolved (those whose profile
/// resolves to an element), and the errors reported.
pub open spec fn stereos_outcome(ctx: ResolutionContext, s: Seq<StereotypePtr>, n: int) -> (
    Seq<StereotypeRefView>,
    Seq<ResolutionErrorView>,
)
    decreases n,
{
    if n <= 0 || n > s.len() {
        (Seq::empty(), Seq::empty())
    } else {
        let p = stereos_outcome(ctx, s, n - 1);
        let x = s[n - 1];
        let a = annotation_outcome(ctx, x.profile, x.value@, false, x.source_info@);
        (
            match a.0 {
                Some(id) => p.0.push(
                    StereotypeRefView { profile: id, value: x.value@, source_info: Some(x.source_info@) },
                ),
                None => p.0,
            },
            p.1 + a.1,
        )
    }
}

/// The first `n` tagged values, resolved, and the errors reported.
pub open spec fn tags_outcome(ctx: ResolutionContext, s: Seq<TaggedValuePtr>, n: int) -> (
    Seq<TaggedValueRefView>,
    Seq<ResolutionErrorView>,
)
    decreases n,
{
    if n <= 0 || n > s.len() {
        (Seq::empty(), Seq::empty())
    } else {
        let p = tags_outcome(ctx, s, n - 1);
        let x = s[n - 1];
        let a = annotation_outcome(ctx, x.profile, x.tag@, true, x.source_info@);
        (
            match a.0 {
                Some(id) => p.0.push(
                    TaggedValueRefView {
                        profile: id,
                        tag: x.tag@,
                        value: x.value@,
                        source_info: Some(x.source_info@),
                    },
                ),
                None => p.0,
            },
            p.1 + a.1,
        )
    }
}

fn declared_names(decls: &Vec<SpannedString>) -> (r: Vec<String>)
    ensures
        strs_view(r@) == decl_names(decls@),
{
    let mut r: Vec<String> = Vec::new();
    let mut i: usize = 0;
    while i < decls.len()
        invariant
            i <= decls.len(),
            strs_view(r@) == decl_names(decls@.take(i as int)),
        decreases decls.len() - i,
    {
        let ghost r0 = r@;
        let v = decls[i].value.clone();
        r.push(v);
        assert(decls@.take(i + 1) =~= decls@.take(i as int).push(decls@[i as int]));
        assert(strs_view(r@) =~= strs_view(r0).push(v@));
        assert(strs_view(r@) =~= decl_names(decls@.take(i + 1)));
        i = i + 1;
    }
    assert(decls@.take(i as int) =~= decls@);
    r
}

fn declares(decls: &Vec<SpannedString>, name: &String) -> (r: bool)
    ensures
        r == decl_names(decls@).contains(name@),
{
    let mut i: usize = 0;
    while i < decls.len()
        invariant
            i <= decls.len(),
            forall|k: int| 0 <= k < i ==> #[trigger] decls@[k].value@ != name@,
        decreases decls.len() - i,
    {
        if str_eq(decls[i].value.as_str(), name.as_str()) {
            assert(decl_names(decls@)[i as int] == name@);
            return true;
        }
        i = i + 1;
    }
    proof {
        if decl_names(decls@).contains(name@) {
            let k = choose|k: int| 0 <= k < decl_names(decls@).len() && decl_names(decls@)[k] == name@;
            assert(decls@[k].value@ == name@);
        }
    }
    false
}

/// Reports what is wrong with the profile of an annotation (see
/// [`profile_check`]).
fn check_profile(
    model: &PureModel,
    id: ElementId,
    name: &String,
    for_tag: bool,
    si: &SourceInfo,
    errors: &mut Vec<ResolutionError>,
)
    requires
        arenas_parallel(*model),
    ensures
        errors_view(final(errors)@) == errors_view(old(errors)@) + profile_check(*model, id, name@, for_tag, si@),
{
    match model.try_get_element(id) {
        Some(element) => {
            assert(model.chunks@[id.chunk_id as int].parallel());
            assert(model.valid_node(id));
            let node_name = model.get_node(id).name.clone();
            match element {
                Element::Profile(p) => {
                    let decls = if for_tag {
                        &p.tags
                    } else {
                        &p.stereotypes
                    };
                    if !declares(decls, name) {
                        let e = ResolutionError::UnknownAnnotation {
                            profile: node_name,
                            name: name.clone(),
                            available: declared_names(decls),
                            for_tag,
                            source_info: si.duplicate(),
                        };
                        errors.push(e);
                        assert(errors_view(errors@) =~= errors_view(old(errors)@) + seq![e@]);
                    } else {
                        assert(errors_view(errors@) =~= errors_view(old(errors)@) + Seq::<ResolutionErrorView>::empty());
                    }
                },
                _ => {
                    let e = ResolutionError::NotAProfile { target: node_name, for_tag, source_info: si.duplicate() };
                    errors.push(e);
                    assert(errors_view(errors@) =~= errors_view(old(errors)@) + seq![e@]);
                },
            }
        },
        None => {
            assert(errors_view(errors@) =~= errors_view(old(errors)@) + Seq::<ResolutionErrorView>::empty());
        },
    }
}

/// Resolves the profile of an annotation (see [`annotation_outcome`]).
fn resolve_annotation_profile(
    profile: &QualifiedName,
    name: &String,
    for_tag: bool,
    si: &SourceInfo,
    ctx: &ResolutionContext,
    cache: &mut Vec<(String, CachedResolution)>,
    errors: &mut Vec<ResolutionError>,
) -> (r: Option<ElementId>)
    requires
        ctx.valid(),
        ctx.memo_ok(old(cache)@),
        arenas_parallel(*ctx.model),
    ensures
        ctx.memo_ok(final(cache)@),
        r == annotation_outcome(*ctx, *profile, name@, for_tag, si@).0,
        errors_view(final(errors)@) == errors_view(old(errors)@) + annotation_outcome(
            *ctx,
            *profile,
            name@,
            for_tag,
            si@,
        ).1,
{
    let ghost e0 = errors_view(errors@);
    match resolve_element_ptr(profile, si, ctx, cache, errors) {
        None => None,
        Some(ResolvedRef::Package(_)) => {
            let ghost e1 = errors_view(errors@);
            let e = ResolutionError::UnresolvedProfile { path: profile.name.clone(), for_tag, source_info: si.duplicate() };
            errors.push(e);
            assert(errors_view(errors@) =~= e1.push(e@));
            None
        },
        Some(ResolvedRef::Element(id)) => {
            let ghost e1 = errors_view(errors@);
            check_profile(ctx.model, id, name, for_tag, si, errors);
            assert(errors_view(errors@) =~= e0 + (ptr_outcome(*ctx, *profile, si@).1 + profile_check(
                *ctx.model,
                id,
                name@,
                for_tag,
                si@,
            )));
            Some(id)
        },
    }
}

/// Resolves stereotype applications: those whose profile resolves to an
/// element are kept; the errors reported are appended (see
/// [`stereos_outcome`]).
pub fn resolve_stereotypes(
    stereotypes: &[StereotypePtr],
    ctx: &ResolutionContext,
    cache: &mut Vec<(String, CachedResolution)>,
    errors: &mut Vec<ResolutionError>,
) -> (r: Vec<StereotypeRef>)
    requires
        ctx.valid(),
        ctx.memo_ok(old(cache)@),
        arenas_parallel(*ctx.model),
    ensures
        ctx.memo_ok(final(cache)@),
        r@.map_values(|x: StereotypeRef| x@) == stereos_outcome(*ctx, stereotypes@, stereotypes@.len() as int).0,
        errors_view(final(errors)@) == errors_view(old(errors)@) + stereos_outcome(
            *ctx,
            stereotypes@,
            stereotypes@.len() as int,
        ).1,
{
    let mut r: Vec<StereotypeRef> = Vec::new();
    let mut i: usize = 0;
    while i < stereotypes.len()
        invariant
            i <= stereotypes.len(),
            ctx.valid(),
            ctx.memo_ok(cache@),
            arenas_parallel(*ctx.model),
            r@.map_values(|x: StereotypeRef| x@) == stereos_outcome(*ctx, stereotypes@, i as int).0,
            errors_view(errors@) == errors_view(old(errors)@) + stereos_outcome(*ctx, stereotypes@, i as int).1,
        decreases stereotypes.len() - i,
    {
        let s = &stereotypes[i];
        let ghost r0 = r@;
        let ghost a = annotation_outcome(*ctx, s.profile, s.value@, false, s.source_info@);
        match resolve_annotation_profile(&s.profile, &s.value, false, &s.source_info, ctx, cache, errors) {
            Some(id) => {
                let x = StereotypeRef { profile: id, value: s.value.clone(), source_info: Some(s.source_info.duplicate()) };
                let ghost xv = x@;
                r.push(x);
                assert(r@.map_values(|x: StereotypeRef| x@) =~= r0.map_values(|x: StereotypeRef| x@).push(xv));
            },
            None => {},
        }
        assert(errors_view(errors@) =~= errors_view(old(errors)@) + (stereos_outcome(*ctx, stereotypes@, i as int).1
            + a.1));
        i = i + 1;
    }
    r
}

/// Resolves tagged values: those whose profile resolves to an element are
/// kept; the errors reported are appended (see [`tags_outcome`]).
pub fn resolve_tagged_values(
    tagged_values: &[TaggedValuePtr],
    ctx: &ResolutionContext,
    cache: &mut Vec<(String, CachedResolution)>,
    errors: &mut Vec<ResolutionError>,
) -> (r: Vec<TaggedValueRef>)
    requires
        ctx.valid(),
        ctx.memo_ok(old(cache)@),
        arenas_parallel(*ctx.model),
    ensures
        ctx.memo_ok(final(cache)@),
        r@.map_values(|x: TaggedValueRef| x@) == tags_outcome(*ctx, tagged_values@, tagged_values@.len() as int).0,
        errors_view(final(errors)@) == errors_view(old(errors)@) + tags_outcome(
            *ctx,
            tagged_values@,
            tagged_values@.len() as int,
        ).1,
{
    let mut r: Vec<TaggedValueRef> = Vec::new();
    let mut i: usize = 0;
    while i < tagged_values.len()
        invariant
            i <= tagged_values.len(),
            ctx.valid(),
            ctx.memo_ok(cache@),
            arenas_parallel(*ctx.model),
            r@.map_values(|x: TaggedValueRef| x@) == tags_outcome(*ctx, tagged_values@, i as int).0,
            errors_view(errors@) == errors_view(old(errors)@) + tags_outcome(*ctx, tagged_values@, i as int).1,
        decreases tagged_values.len() - i,
    {
        let t = &tagged_values[i];
        let ghost r0 = r@;
        let ghost a = annotation_outcome(*ctx, t.profile, t.tag@, true, t.source_info@);
        match resolve_annotation_profile(&t.profile, &t.tag, true, &t.source_info, ctx, cache, errors) {
            Some(id) => {
                let x = TaggedValueRef {
                    profile: id,
                    tag: t.tag.clone(),
                    value: t.value.clone(),
                    source_info: Some(t.source_info.duplicate()),
                };
                let ghost xv = x@;
                r.push(x);
                assert(r@.map_values(|x: TaggedValueRef| x@) =~= r0.map_values(|x: TaggedValueRef| x@).push(xv));
            },
            None => {},
        }
        assert(errors_view(errors@) =~= errors_view(old(errors)@) + (tags_outcome(*ctx, tagged_values@, i as int).1
            + a.1));
        i = i + 1;
    }
    r
}

} // verus!

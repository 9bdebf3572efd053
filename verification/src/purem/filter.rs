//! Test-element detection for splitting a repository into a production
//! slice and a tests slice: elements stereotyped as tests, and
//! scope-private elements of a `tests` package.

use vstd::prelude::*;

use crate::ids::{ElementId, PackageId};
use crate::milestoning::str_eq;
use crate::milestoning::synthesis::arenas_parallel;
use crate::model::{names_view, Element, PureModel};
use crate::resolve::annotations::ResolvedRef;
use crate::nodes::StereotypeRef;
use crate::purem::fqn_path::package_path;

verus! {

/// Stereotype names of the standard test profile that mark a test.
pub open spec fn test_stereotype_names() -> Seq<Seq<char>> {
    seq!["Test"@, "TestCollection"@, "BeforePackage"@, "AfterPackage"@, "ToFix"@]
}

/// Package segment marking test-only code.
pub const TEST_PACKAGE_SEGMENT: &'static str = "tests";

/// Stereotype of the PCT profile marking an executable test.
pub const PCT_TEST_STEREOTYPE: &'static str = "test";

/// Stereotype of the access profile marking a scope-private element.
pub const PRIVATE_ACCESS_STEREOTYPE: &'static str = "private";

/// The stereotypes an element carries (functions, classes, associations
/// and enumerations carry them).
pub open spec fn stereotypes_of(e: Element) -> Option<Seq<StereotypeRef>> {
    match e {
        Element::Function(f) => Some(f.stereotypes@),
        Element::Class(c) => Some(c.stereotypes@),
        Element::Association(a) => Some(a.stereotypes@),
        Element::Enumeration(x) => Some(x.stereotypes@),
        _ => None,
    }
}

/// A stereotype marks a test: a test stereotype of the test profile, or
/// the test stereotype of the PCT profile.
pub open spec fn marks_test(s: StereotypeRef, test_profile: Option<ElementId>, pct_profile: Option<ElementId>) -> bool {
    ||| (test_profile == Some(s.profile) && test_stereotype_names().contains(s.value@))
    ||| (pct_profile == Some(s.profile) && s.value@ == PCT_TEST_STEREOTYPE@)
}

/// Some stereotype of `s` marks a test.
pub open spec fn has_test_mark(s: Seq<StereotypeRef>, test_profile: Option<ElementId>, pct_profile: Option<ElementId>) -> bool {
    exists|i: int| 0 <= i < s.len() && marks_test(#[trigger] s[i], test_profile, pct_profile)
}

/// Some stereotype of `s` is `<<access.private>>` of profile `ap`.
pub open spec fn has_private_mark(s: Seq<StereotypeRef>, ap: ElementId) -> bool {
    exists|i: int| 0 <= i < s.len() && (#[trigger] s[i]).profile == ap && s[i].value@ == PRIVATE_ACCESS_STEREOTYPE@
}

/// The element carries a stereotype marking a test.
pub open spec fn test_stereotyped(e: Element, test_profile: Option<ElementId>, pct_profile: Option<ElementId>) -> bool {
    match stereotypes_of(e) {
        Some(s) => has_test_mark(s, test_profile, pct_profile),
        None => false,
    }
}

/// The element carries `<<access.private>>`.
pub open spec fn access_private(e: Element, access_profile: Option<ElementId>) -> bool {
    match (access_profile, stereotypes_of(e)) {
        (Some(ap), Some(s)) => has_private_mark(s, ap),
        _ => false,
    }
}

fn element_stereotypes(element: &Element) -> (r: Option<&Vec<StereotypeRef>>)
    ensures
        match stereotypes_of(*element) {
            Some(s) => r matches Some(v) && v@ == s,
            None => r is None,
        },
{
    match element {
        Element::Function(f) => Some(&f.stereotypes),
        Element::Class(c) => Some(&c.stereotypes),
        Element::Association(a) => Some(&a.stereotypes),
        Element::Enumeration(e) => Some(&e.stereotypes),
        _ => None,
    }
}

fn is_test_stereotype_name(value: &String) -> (r: bool)
    ensures
        r == test_stereotype_names().contains(value@),
{
    let names = ["Test", "TestCollection", "BeforePackage", "AfterPackage", "ToFix"];
    let ghost nv = names@.map_values(|n: &str| n@);
    assert(nv =~= test_stereotype_names());
    let mut i: usize = 0;
    while i < 5
        invariant
            i <= 5,
            names@.len() == 5,
            nv == test_stereotype_names(),
            nv == names@.map_values(|n: &str| n@),
            forall|k: int| 0 <= k < i ==> #[trigger] nv[k] != value@,
        decreases 5 - i,
    {
        if str_eq(names[i], value.as_str()) {
            assert(nv[i as int] == value@);
            return true;
        }
        i = i + 1;
    }
    proof {
        if test_stereotype_names().contains(value@) {
            let k = choose|k: int| 0 <= k < nv.len() && nv[k] == value@;
            assert(nv[k] != value@);
        }
    }
    false
}

/// Whether the element carries a stereotype marking a test (see
/// [`test_stereotyped`]).
pub fn is_test_stereotyped(
    element: &Element,
    test_profile: Option<ElementId>,
    pct_profile: Option<ElementId>,
) -> (r: bool)
    ensures
        r == test_stereotyped(*element, test_profile, pct_profile),
{
    let stereotypes = match element_stereotypes(element) {
        Some(s) => s,
        None => {
            return false;
        },
    };
    let mut i: usize = 0;
    while i < stereotypes.len()
        invariant
            i <= stereotypes.len(),
            stereotypes_of(*element) == Some(stereotypes@),
            forall|k: int| 0 <= k < i ==> !marks_test(#[trigger] stereotypes@[k], test_profile, pct_profile),
        decreases stereotypes.len() - i,
    {
        let s = &stereotypes[i];
        let hit_test = match test_profile {
            Some(tp) => s.profile == tp && is_test_stereotype_name(&s.value),
            None => false,
        };
        let hit_pct = match pct_profile {
            Some(pp) => s.profile == pp && str_eq(s.value.as_str(), PCT_TEST_STEREOTYPE),
            None => false,
        };
        if hit_test || hit_pct {
            assert(marks_test(stereotypes@[i as int], test_profile, pct_profile));
            let ghost sv = stereotypes@;
            assert(stereotypes_of(*element) == Some(sv));
            assert(has_test_mark(sv, test_profile, pct_profile));
            return true;
        }
        i = i + 1;
    }
    false
}

/// Whether the element carries `<<access.private>>` (see
/// [`access_private`]).
pub fn has_access_private(element: &Element, access_profile: Option<ElementId>) -> (r: bool)
    ensures
        r == access_private(*element, access_profile),
{
    let ap = match access_profile {
        Some(ap) => ap,
        None => {
            return false;
        },
    };
    let stereotypes = match element_stereotypes(element) {
        Some(s) => s,
        None => {
            return false;
        },
    };
    let mut i: usize = 0;
    while i < stereotypes.len()
        invariant
            i <= stereotypes.len(),
            access_profile == Some(ap),
            stereotypes_of(*element) == Some(stereotypes@),
            forall|k: int|
                0 <= k < i ==> !((#[trigger] stereotypes@[k]).profile == ap && stereotypes@[k].value@
                    == PRIVATE_ACCESS_STEREOTYPE@),
        decreases stereotypes.len() - i,
    {
        if stereotypes[i].profile == ap && str_eq(stereotypes[i].value.as_str(), PRIVATE_ACCESS_STEREOTYPE) {
            let ghost sv = stereotypes@;
            assert(stereotypes_of(*element) == Some(sv));
            assert((sv[i as int]).profile == ap && sv[i as int].value@ == PRIVATE_ACCESS_STEREOTYPE@);
            assert(has_private_mark(sv, ap));
            return true;
        }
        i = i + 1;
    }
    false
}

/// Whether the path of package `pkg_id` has a `tests` segment.
pub fn package_has_test_segment(model: &PureModel, pkg_id: PackageId) -> (r: bool)
    requires
        model.wf(),
        model.valid_pkg(pkg_id),
    ensures
        r == model.pkg_path(pkg_id).contains(TEST_PACKAGE_SEGMENT@),
{
    let path = package_path(model, pkg_id);
    let mut i: usize = 0;
    while i < path.len()
        invariant
            i <= path.len(),
            crate::model::names_view(path@) == model.pkg_path(pkg_id),
            forall|k: int| 0 <= k < i ==> #[trigger] path@[k]@ != TEST_PACKAGE_SEGMENT@,
        decreases path.len() - i,
    {
        if str_eq(path[i].as_str(), TEST_PACKAGE_SEGMENT) {
            assert(model.pkg_path(pkg_id)[i as int] == TEST_PACKAGE_SEGMENT@);
            return true;
        }
        i = i + 1;
    }
    proof {
        if model.pkg_path(pkg_id).contains(TEST_PACKAGE_SEGMENT@) {
            let k = choose|k: int| 0 <= k < model.pkg_path(pkg_id).len() && model.pkg_path(pkg_id)[k] == TEST_PACKAGE_SEGMENT@;
            assert(path@[k]@ == TEST_PACKAGE_SEGMENT@);
        }
    }
    false
}

/// The element at slot `i` of chunk `c` is a candidate for the tests
/// slice: stereotyped as a test, or scope-private inside a `tests`
/// package.
pub open spec fn is_candidate(
    m: PureModel,
    c: int,
    i: int,
    test_profile: Option<ElementId>,
    pct_profile: Option<ElementId>,
    access_profile: Option<ElementId>,
) -> bool {
    let e = m.chunks@[c].elements.items@[i];
    ||| test_stereotyped(e, test_profile, pct_profile)
    ||| (access_private(e, access_profile) && m.pkg_path(m.chunks@[c].nodes.items@[i].parent_package).contains(
        TEST_PACKAGE_SEGMENT@,
    ))
}

/// The model's nodes all sit in valid packages.
pub open spec fn parents_valid(m: PureModel) -> bool {
    forall|c: int, i: int|
        0 <= c < m.chunks.len() && 0 <= i < m.chunks@[c].nodes.items.len() ==> m.valid_pkg(
            #[trigger] m.chunks@[c].nodes.items@[i].parent_package,
        )
}

/// The candidates of the tests slice, outside the bootstrap chunk, chunk
/// by chunk and slot by slot (the first phase of the test partition).
pub fn test_candidates(
    model: &PureModel,
    test_profile: Option<ElementId>,
    pct_profile: Option<ElementId>,
    access_profile: Option<ElementId>,
) -> (r: Vec<ElementId>)
    requires
        model.wf(),
        arenas_parallel(*model),
        parents_valid(*model),
        forall|c: int| 0 <= c < model.chunks.len() ==> (#[trigger] model.chunks@[c]).chunk_id == c,
        forall|c: int| 0 <= c < model.chunks.len() ==> (#[trigger] model.chunks@[c]).elements.items.len() <= u32::MAX,
    ensures
        forall|k: int| 0 <= k < r@.len() ==> {
            let id = #[trigger] r@[k];
            &&& id.chunk_id != 0
            &&& model.valid_id(id)
            &&& is_candidate(*model, id.chunk_id as int, id.local_idx as int, test_profile, pct_profile, access_profile)
        },
        forall|c: int, i: int|
            1 <= c < model.chunks.len() && 0 <= i < model.chunks@[c].elements.items.len() && is_candidate(
                *model,
                c,
                i,
                test_profile,
                pct_profile,
                access_profile,
            ) ==> r@.contains(ElementId { chunk_id: c as u16, local_idx: i as u32 }),
{
    let mut out: Vec<ElementId> = Vec::new();
    let mut c: usize = 1;
    while c < model.chunks.len()
        invariant
            1 <= c <= model.chunks.len() || model.chunks.len() == 0,
            model.wf(),
            arenas_parallel(*model),
            parents_valid(*model),
            forall|c2: int| 0 <= c2 < model.chunks.len() ==> (#[trigger] model.chunks@[c2]).chunk_id == c2,
            forall|c2: int| 0 <= c2 < model.chunks.len() ==> (#[trigger] model.chunks@[c2]).elements.items.len() <= u32::MAX,
            forall|k: int| 0 <= k < out@.len() ==> {
                let id = #[trigger] out@[k];
                &&& id.chunk_id != 0
                &&& model.valid_id(id)
                &&& is_candidate(*model, id.chunk_id as int, id.local_idx as int, test_profile, pct_profile, access_profile)
            },
            forall|c2: int, i: int|
                1 <= c2 < c && c2 < model.chunks.len() && 0 <= i < model.chunks@[c2].elements.items.len() && is_candidate(
                    *model,
                    c2,
                    i,
                    test_profile,
                    pct_profile,
                    access_profile,
                ) ==> out@.contains(ElementId { chunk_id: c2 as u16, local_idx: i as u32 }),
        decreases model.chunks.len() - c,
    {
        let chunk = &model.chunks[c];
        assert(chunk.parallel());
        let mut i: usize = 0;
        while i < chunk.elements.items.len()
            invariant
                *chunk == model.chunks@[c as int],
                1 <= c < model.chunks.len(),
                chunk.chunk_id == c,
                chunk.parallel(),
                chunk.elements.items.len() <= u32::MAX,
                i <= chunk.elements.items.len(),
                model.wf(),
                parents_valid(*model),
                forall|k: int| 0 <= k < out@.len() ==> {
                    let id = #[trigger] out@[k];
                    &&& id.chunk_id != 0
                    &&& model.valid_id(id)
                    &&& is_candidate(*model, id.chunk_id as int, id.local_idx as int, test_profile, pct_profile, access_profile)
                },
                forall|c2: int, j: int|
                    1 <= c2 < c && c2 < model.chunks.len() && 0 <= j < model.chunks@[c2].elements.items.len() && is_candidate(
                        *model,
                        c2,
                        j,
                        test_profile,
                        pct_profile,
                        access_profile,
                    ) ==> out@.contains(ElementId { chunk_id: c2 as u16, local_idx: j as u32 }),
                forall|j: int|
                    0 <= j < i && is_candidate(*model, c as int, j, test_profile, pct_profile, access_profile)
                        ==> out@.contains(ElementId { chunk_id: c as u16, local_idx: j as u32 }),
            decreases chunk.elements.items.len() - i,
        {
            let element = &chunk.elements.items[i];
            let ghost before = out@;
            let hit = if is_test_stereotyped(element, test_profile, pct_profile) {
                true
            } else if has_access_private(element, access_profile) {
                assert(model.valid_pkg(model.chunks@[c as int].nodes.items@[i as int].parent_package));
                package_has_test_segment(model, chunk.nodes.items[i].parent_package)
            } else {
                false
            };
            if hit {
                let id = ElementId { chunk_id: chunk.chunk_id, local_idx: i as u32 };
                assert(id.local_idx as int == i);
                assert(id.chunk_id as int == c);
                assert(is_candidate(*model, c as int, i as int, test_profile, pct_profile, access_profile));
                out.push(id);
                assert(out@[before.len() as int] == id);
            }
            proof {
                assert forall|k: int| 0 <= k < before.len() implies out@[k] == before[k] by {}
                assert forall|c2: int, j: int|
                    1 <= c2 < c && c2 < model.chunks.len() && 0 <= j < model.chunks@[c2].elements.items.len()
                        && is_candidate(*model, c2, j, test_profile, pct_profile, access_profile) implies out@.contains(
                    ElementId { chunk_id: c2 as u16, local_idx: j as u32 },
                ) by {
                    let x = ElementId { chunk_id: c2 as u16, local_idx: j as u32 };
                    assert(before.contains(x));
                    let k = choose|k: int| 0 <= k < before.len() && before[k] == x;
                    assert(out@[k] == x);
                }
                assert forall|j: int|
                    0 <= j < i + 1 && is_candidate(*model, c as int, j, test_profile, pct_profile, access_profile)
                        implies out@.contains(ElementId { chunk_id: c as u16, local_idx: j as u32 }) by {
                    let x = ElementId { chunk_id: c as u16, local_idx: j as u32 };
                    if j < i {
                        assert(before.contains(x));
                        let k = choose|k: int| 0 <= k < before.len() && before[k] == x;
                        assert(out@[k] == x);
                    } else {
                        assert(out@[before.len() as int] == x);
                    }
                }
            }
            i = i + 1;
        }
        c = c + 1;
    }
    out
}


/// What a slice's external reference path designates: the root package
/// for the empty path, the element at that path, else the package at
/// that path.
pub open spec fn package_or_element(m: PureModel, path: Seq<Seq<char>>) -> Option<ResolvedRef> {
    if path.len() == 0 {
        Some(ResolvedRef::Package(m.root_package))
    } else {
        match m.spec_resolve_by_path(path) {
            Some(id) => Some(ResolvedRef::Element(id)),
            None => match m.walk_pkgs(m.root_package, path) {
                Some(p) => Some(ResolvedRef::Package(p)),
                None => None,
            },
        }
    }
}

/// Resolves a path to an element or, failing that, a package (see
/// [`package_or_element`]).
pub fn resolve_package_or_element(model: &PureModel, path: &[String]) -> (r: Option<ResolvedRef>)
    requires
        model.wf(),
        model.children_resolvable(),
    ensures
        r == package_or_element(*model, names_view(path@)),
{
    if path.len() == 0 {
        return Some(ResolvedRef::Package(model.root_package));
    }
    match model.resolve_by_path(path) {
        Some(id) => Some(ResolvedRef::Element(id)),
        None => match model.resolve_package(path) {
            Some(p) => Some(ResolvedRef::Package(p)),
            None => None,
        },
    }
}

/// Number of elements in chunks `start..end`.
pub open spec fn elements_in(m: PureModel, start: int, end: int) -> int
    decreases end - start,
{
    if end <= start {
        0
    } else {
        elements_in(m, start, end - 1) + m.chunks@[end - 1].elements.items.len()
    }
}

/// How many elements a slice is expected to keep: the size of the
/// inclusion list when there is one, else every element of the chunk
/// range.
pub fn estimate_survivor_count(model: &PureModel, start: u16, end: u16, kept: Option<&Vec<ElementId>>) -> (r: usize)
    requires
        start <= end,
        end as int <= model.chunks.len(),
        kept is None ==> elements_in(*model, start as int, end as int) <= usize::MAX,
    ensures
        r == match kept {
            Some(v) => v.len() as int,
            None => elements_in(*model, start as int, end as int),
        },
{
    match kept {
        Some(set) => set.len(),
        None => {
            let mut total: usize = 0;
            let mut c: u16 = start;
            while c < end
                invariant
                    start <= c <= end,
                    end as int <= model.chunks.len(),
                    total == elements_in(*model, start as int, c as int),
                    elements_in(*model, start as int, end as int) <= usize::MAX,
                decreases end - c,
            {
                proof {
                    lemma_elements_in_monotone(*model, start as int, c as int + 1, end as int);
                }
                total = total + model.chunks[c as usize].elements.items.len();
                c = c + 1;
            }
            total
        },
    }
}

proof fn lemma_elements_in_monotone(m: PureModel, start: int, mid: int, end: int)
    requires
        start <= mid <= end,
    ensures
        elements_in(m, start, mid) <= elements_in(m, start, end),
    decreases end - mid,
{
    if mid < end {
        lemma_elements_in_monotone(m, start, mid, end - 1);
    }
}

} // verus!

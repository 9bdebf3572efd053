//! Resolution of a simple (unqualified) element name through a section's
//! imports, with a per-section memo of earlier answers.

use vstd::prelude::*;
use vstd::string::StrSliceExecFns;

use crate::generics::{assoc_view, lookup_binding, names_unique, set_binding, strs_view};
use crate::ids::{any_id, nil_id, ElementId};
use crate::milestoning::str_eq;
use crate::model::{names_view, Element, PureModel};
use crate::purem::fqn_path::{fqn_path_to_string, join_path};
use crate::types::{SourceInfo, SourceInfoView};

verus! {

// ---------------------------------------------------------------------------
// Import scopes
// ---------------------------------------------------------------------------

/// Position of the first `::` at or after `i`.
pub open spec fn first_sep(s: Seq<char>, i: int) -> Option<int>
    decreases s.len() - i,
{
    if i < 0 || i + 1 >= s.len() {
        None
    } else if s[i] == ':' && s[i + 1] == ':' {
        Some(i)
    } else {
        first_sep(s, i + 1)
    }
}

/// A separator found at or after `i` lies inside the text.
pub proof fn lemma_first_sep_range(s: Seq<char>, i: int)
    ensures
        first_sep(s, i) matches Some(k) ==> i <= k && k + 1 < s.len(),
    decreases s.len() - i,
{
    if 0 <= i && i + 1 < s.len() && !(s[i] == ':' && s[i + 1] == ':') {
        lemma_first_sep_range(s, i + 1);
    }
}

/// The segments of a `::`-separated path, left to right.
pub open spec fn split_path(s: Seq<char>) -> Seq<Seq<char>>
    decreases s.len(),
{
    match first_sep(s, 0) {
        Some(k) => {
            proof {
                lemma_first_sep_range(s, 0);
            }
            seq![s.take(k)] + split_path(s.skip(k + 2))
        },
        None => seq![s],
    }
}

/// An import: a package whose elements an unqualified name may denote,
/// given by its path segments from the root.
#[derive(Debug)]
pub struct ImportScope {
    pub package: Vec<String>,
}

impl ImportScope {
    /// An import of the package `package`.
    pub fn from_package(package: Vec<String>) -> (r: ImportScope)
        ensures
            r.package == package,
    {
        ImportScope { package }
    }

    /// An import of the package written `path` (`a::b::c`).
    pub fn from_path_str(path: &str) -> (r: ImportScope)
        ensures
            strs_view(r.package@) == split_path(path@),
    {
        let n = path.unicode_len();
        let ghost s = path@;
        let mut segs: Vec<String> = Vec::new();
        let mut start: usize = 0;
        let mut i: usize = 0;
        assert(s.skip(0) =~= s);
        assert(strs_view(segs@) =~= Seq::<Seq<char>>::empty());
        assert(strs_view(segs@) + split_path(s.skip(0)) =~= split_path(s));
        while i < n
            invariant
                n == s.len(),
                s == path@,
                start <= i <= n,
                strs_view(segs@) + split_path(s.skip(start as int)) == split_path(s),
                first_sep(s.skip(start as int), 0) == first_sep(s.skip(start as int), i - start),
            decreases n - i,
        {
            let ghost t = s.skip(start as int);
            let ghost k: int = i - start;
            if i + 1 < n && path.get_char(i) == ':' && path.get_char(i + 1) == ':' {
                assert(t[k] == s[i as int] && t[k + 1] == s[i + 1]);
                assert(first_sep(t, k) == Some(k));
                let seg = path.substring_char(start, i).to_owned();
                proof {
                    assert(t.take(k) =~= s.subrange(start as int, i as int));
                    assert(t.skip(k + 2) =~= s.skip(i + 2));
                    let ghost before = segs@;
                    assert(split_path(t) == seq![t.take(k)] + split_path(t.skip(k + 2)));
                }
                let ghost before = segs@;
                segs.push(seg);
                assert(strs_view(segs@) =~= strs_view(before).push(seg@));
                assert(strs_view(segs@) + split_path(s.skip(i + 2)) =~= strs_view(before) + split_path(t));
                start = i + 2;
                i = i + 2;
                assert(s.skip(start as int).skip(0) =~= s.skip(start as int));
            } else {
                proof {
                    if k + 1 < t.len() {
                        assert(t[k] == s[i as int] && t[k + 1] == s[i + 1]);
                    }
                    assert(first_sep(t, k) == first_sep(t, k + 1));
                }
                i = i + 1;
            }
        }
        let ghost t = s.skip(start as int);
        assert(first_sep(t, 0) is None);
        assert(split_path(t) == seq![t]);
        let seg = path.substring_char(start, n).to_owned();
        assert(seg@ =~= t);
        let ghost before = segs@;
        segs.push(seg);
        assert(strs_view(segs@) =~= strs_view(before).push(seg@));
        assert(strs_view(segs@) =~= strs_view(before) + split_path(t));
        ImportScope { package: segs }
    }

    /// The `::`-separated form of the imported package.
    pub fn path_string(&self) -> (r: String)
        ensures
            r@ == join_path(strs_view(self.package@)),
    {
        assert(names_view(self.package@) =~= strs_view(self.package@));
        fqn_path_to_string(self.package.as_slice())
    }
}

/// Joining prepends a first segment with a separator.
proof fn lemma_join_cons(a: Seq<char>, rest: Seq<Seq<char>>)
    requires
        rest.len() > 0,
    ensures
        join_path(seq![a] + rest) == a + "::"@ + join_path(rest),
    decreases rest.len(),
{
    let whole = seq![a] + rest;
    if rest.len() == 1 {
        assert(whole.drop_last() =~= seq![a]);
        assert(join_path(seq![a]) == a);
        assert(join_path(rest) == rest[0]);
        assert(whole.last() == rest[0]);
        assert(join_path(whole) == join_path(whole.drop_last()) + "::"@ + whole.last());
    } else {
        lemma_join_cons(a, rest.drop_last());
        assert(whole.drop_last() =~= seq![a] + rest.drop_last());
        assert(whole.last() == rest.last());
        assert(join_path(whole) == join_path(whole.drop_last()) + "::"@ + whole.last());
        assert(join_path(rest) == join_path(rest.drop_last()) + "::"@ + rest.last());
        assert((a + "::"@ + join_path(rest.drop_last())) + "::"@ + rest.last() =~= a + "::"@ + (join_path(
            rest.drop_last(),
        ) + "::"@ + rest.last()));
    }
}

/// A path splits into at least one segment.
proof fn lemma_split_nonempty(s: Seq<char>)
    ensures
        split_path(s).len() > 0,
    decreases s.len(),
{
    lemma_first_sep_range(s, 0);
    if let Some(k) = first_sep(s, 0) {
        lemma_split_nonempty(s.skip(k + 2));
    }
}

/// The segments of a separator found at `i` and before it.
proof fn lemma_first_sep_at(s: Seq<char>, i: int)
    requires
        0 <= i,
    ensures
        first_sep(s, i) matches Some(k) ==> s[k] == ':' && s[k + 1] == ':',
    decreases s.len() - i,
{
    if i + 1 < s.len() && !(s[i] == ':' && s[i + 1] == ':') {
        lemma_first_sep_at(s, i + 1);
    }
}

/// Splitting a path and joining its segments back gives the path.
pub proof fn lemma_split_join(s: Seq<char>)
    ensures
        join_path(split_path(s)) == s,
    decreases s.len(),
{
    lemma_first_sep_range(s, 0);
    match first_sep(s, 0) {
        Some(k) => {
            lemma_first_sep_at(s, 0);
            let rest = split_path(s.skip(k + 2));
            lemma_split_join(s.skip(k + 2));
            lemma_split_nonempty(s.skip(k + 2));
            lemma_join_cons(s.take(k), rest);
            assert(s.take(k) + "::"@ + s.skip(k + 2) =~= s) by {
                reveal_strlit("::");
            }
        },
        None => {
            assert(join_path(seq![s]) == s);
        },
    }
}

// ---------------------------------------------------------------------------
// Resolving a simple name
// ---------------------------------------------------------------------------

/// A name that did not resolve to exactly one element.
#[derive(Debug)]
pub enum ResolutionError {
    /// No visible element has that name.
    UnresolvedElement { path: String, source_info: SourceInfo },
    /// Several imports bring in different elements of that name; the
    /// candidates are their full paths.
    AmbiguousImport { name: String, candidates: Vec<String>, source_info: SourceInfo },
    /// A multiplicity parameter the enclosing element does not declare.
    UndeclaredMultiplicityParameter { parameter: String, source_info: SourceInfo },
    /// A generic class referenced without its type arguments.
    MissingTypeArguments { class_path: String, expected: usize, got: usize, source_info: SourceInfo },
    /// A unit (`Measure~Unit`) that does not resolve.
    UnresolvedUnit { path: String, source_info: SourceInfo },
    /// The profile of a stereotype (or, with `for_tag`, of a tagged value)
    /// resolved to a package.
    UnresolvedProfile { path: String, for_tag: bool, source_info: SourceInfo },
    /// A profile without the stereotype (or tag) named; `available` lists
    /// those it declares.
    UnknownAnnotation { profile: String, name: String, available: Vec<String>, for_tag: bool, source_info: SourceInfo },
    /// A stereotype (or tagged value) whose profile is another kind of
    /// element.
    NotAProfile { target: String, for_tag: bool, source_info: SourceInfo },
}

/// View of a [`ResolutionError`].
pub enum ResolutionErrorView {
    UnresolvedElement { path: Seq<char>, source_info: SourceInfoView },
    AmbiguousImport { name: Seq<char>, candidates: Seq<Seq<char>>, source_info: SourceInfoView },
    UndeclaredMultiplicityParameter { parameter: Seq<char>, source_info: SourceInfoView },
    MissingTypeArguments { class_path: Seq<char>, expected: usize, got: usize, source_info: SourceInfoView },
    UnresolvedUnit { path: Seq<char>, source_info: SourceInfoView },
    UnresolvedProfile { path: Seq<char>, for_tag: bool, source_info: SourceInfoView },
    UnknownAnnotation {
        profile: Seq<char>,
        name: Seq<char>,
        available: Seq<Seq<char>>,
        for_tag: bool,
        source_info: SourceInfoView,
    },
    NotAProfile { target: Seq<char>, for_tag: bool, source_info: SourceInfoView },
}

impl View for ResolutionError {
    type V = ResolutionErrorView;

    open spec fn view(&self) -> ResolutionErrorView {
        match self {
            ResolutionError::UnresolvedElement { path, source_info } => ResolutionErrorView::UnresolvedElement {
                path: path@,
                source_info: source_info@,
            },
            ResolutionError::AmbiguousImport { name, candidates, source_info } => ResolutionErrorView::AmbiguousImport {
                name: name@,
                candidates: strs_view(candidates@),
                source_info: source_info@,
            },
            ResolutionError::UndeclaredMultiplicityParameter { parameter, source_info } =>
                ResolutionErrorView::UndeclaredMultiplicityParameter {
                parameter: parameter@,
                source_info: source_info@,
            },
            ResolutionError::MissingTypeArguments { class_path, expected, got, source_info } =>
                ResolutionErrorView::MissingTypeArguments {
                class_path: class_path@,
                expected: *expected,
                got: *got,
                source_info: source_info@,
            },
            ResolutionError::UnresolvedUnit { path, source_info } => ResolutionErrorView::UnresolvedUnit {
                path: path@,
                source_info: source_info@,
            },
            ResolutionError::UnresolvedProfile { path, for_tag, source_info } =>
                ResolutionErrorView::UnresolvedProfile { path: path@, for_tag: *for_tag, source_info: source_info@ },
            ResolutionError::UnknownAnnotation { profile, name, available, for_tag, source_info } =>
                ResolutionErrorView::UnknownAnnotation {
                profile: profile@,
                name: name@,
                available: strs_view(available@),
                for_tag: *for_tag,
                source_info: source_info@,
            },
            ResolutionError::NotAProfile { target, for_tag, source_info } => ResolutionErrorView::NotAProfile {
                target: target@,
                for_tag: *for_tag,
                source_info: source_info@,
            },
        }
    }
}

/// Views of a list of errors.
pub open spec fn errors_view(s: Seq<ResolutionError>) -> Seq<ResolutionErrorView> {
    s.map_values(|e: ResolutionError| e@)
}

/// A primitive type, `Any` or `Nil` named `name` at the root: these are
/// reserved and shadow any import.
pub open spec fn reserved_root(m: PureModel, name: Seq<char>) -> Option<ElementId> {
    match m.spec_resolve_by_path(seq![name]) {
        Some(id) => if m.valid_id(id) && (m.elem(id) is PrimitiveType || (m.elem(id) is Class && (id
            == any_id() || id == nil_id()))) {
            Some(id)
        } else {
            None
        },
        None => None,
    }
}

/// The element called `name` directly in the package `pkg`.
pub open spec fn in_package(m: PureModel, pkg: Seq<Seq<char>>, name: Seq<char>) -> Option<ElementId> {
    match m.walk_pkgs(m.root_package, pkg) {
        Some(p) => m.child_elem_in(m.pkg(p).children_elements@, name),
        None => None,
    }
}

/// The elements called `name` in the first `n` imported packages, with
/// the position of the import that brings each.
pub open spec fn import_candidates(m: PureModel, scopes: Seq<ImportScope>, name: Seq<char>, n: int) -> Seq<
    (int, ElementId),
>
    decreases n,
{
    if n <= 0 {
        Seq::empty()
    } else {
        let prev = import_candidates(m, scopes, name, n - 1);
        match in_package(m, strs_view(scopes[n - 1].package@), name) {
            Some(id) => prev.push((n - 1, id)),
            None => prev,
        }
    }
}

/// The candidates with each run of the same element kept once (its first).
pub open spec fn dedup_runs(c: Seq<(int, ElementId)>) -> Seq<(int, ElementId)>
    decreases c.len(),
{
    if c.len() <= 1 {
        c
    } else {
        let d = dedup_runs(c.drop_last());
        if d.last().1 == c.last().1 {
            d
        } else {
            d.push(c.last())
        }
    }
}

/// What an unqualified name resolves to, or the error reported: a
/// reserved root name first; then the imports (a single element, even
/// if several imports bring it); with no import bringing one, the using
/// element's own package, then the root package.
pub open spec fn unqualified_outcome(
    m: PureModel,
    scopes: Seq<ImportScope>,
    self_package: Option<Seq<Seq<char>>>,
    name: Seq<char>,
    si: SourceInfoView,
) -> Result<ElementId, ResolutionErrorView> {
    match reserved_root(m, name) {
        Some(id) => Ok(id),
        None => {
            let c = import_candidates(m, scopes, name, scopes.len() as int);
            if c.len() == 0 {
                match match self_package {
                    Some(p) => in_package(m, p, name),
                    None => None,
                } {
                    Some(id) => Ok(id),
                    None => match m.spec_resolve_by_path(seq![name]) {
                        Some(id) => Ok(id),
                        None => Err(ResolutionErrorView::UnresolvedElement { path: name, source_info: si }),
                    },
                }
            } else if c.len() == 1 {
                Ok(c[0].1)
            } else {
                let d = dedup_runs(c);
                if d.len() == 1 {
                    Ok(d[0].1)
                } else {
                    Err(
                        ResolutionErrorView::AmbiguousImport {
                            name,
                            candidates: Seq::new(
                                d.len(),
                                |k: int| join_path(strs_view(scopes[d[k].0].package@).push(name)),
                            ),
                            source_info: si,
                        },
                    )
                }
            }
        },
    }
}

/// The path `[name]`.
fn single(name: &String) -> (r: Vec<String>)
    ensures
        names_view(r@) == seq![name@],
{
    let mut r: Vec<String> = Vec::new();
    r.push(name.clone());
    assert(names_view(r@) =~= seq![name@]);
    r
}

/// The path of `name` inside an imported package.
fn candidate_path(scope: &ImportScope, name: &String) -> (r: String)
    ensures
        r@ == join_path(strs_view(scope.package@).push(name@)),
{
    let mut p: Vec<String> = Vec::new();
    let mut i: usize = 0;
    while i < scope.package.len()
        invariant
            i <= scope.package.len(),
            p@ == scope.package@.take(i as int),
        decreases scope.package.len() - i,
    {
        p.push(scope.package[i].clone());
        assert(p@ =~= scope.package@.take(i + 1));
        i = i + 1;
    }
    assert(scope.package@.take(i as int) =~= scope.package@);
    p.push(name.clone());
    assert(names_view(p@) =~= strs_view(scope.package@).push(name@));
    fqn_path_to_string(p.as_slice())
}

/// Resolves a simple name (see [`unqualified_outcome`]); when it does not
/// resolve to exactly one element, the error is appended to `errors`.
pub fn resolve_unqualified(
    name: &String,
    source_info: &SourceInfo,
    model: &PureModel,
    import_scopes: &[ImportScope],
    self_package: Option<&Vec<String>>,
    errors: &mut Vec<ResolutionError>,
) -> (r: Option<ElementId>)
    requires
        model.wf(),
        model.children_resolvable(),
    ensures
        match unqualified_outcome(
            *model,
            import_scopes@,
            match self_package {
                Some(p) => Some(strs_view(p@)),
                None => None,
            },
            name@,
            source_info@,
        ) {
            Ok(id) => r == Some(id) && final(errors)@ == old(errors)@,
            Err(e) => r is None && errors_view(final(errors)@) == errors_view(old(errors)@).push(e),
        },
{
    let ghost sp = match self_package {
        Some(p) => Some(strs_view(p@)),
        None => None,
    };
    let root_path = single(name);
    let at_root = model.resolve_by_path(root_path.as_slice());
    match at_root {
        Some(id) => match model.try_get_element(id) {
            Some(Element::PrimitiveType(_)) => {
                return Some(id);
            },
            Some(Element::Class(_)) => {
                if id == any_id() || id == nil_id() {
                    return Some(id);
                }
            },
            _ => {},
        },
        None => {},
    }
    assert(reserved_root(*model, name@) is None);
    let mut candidates: Vec<(usize, ElementId)> = Vec::new();
    let mut i: usize = 0;
    while i < import_scopes.len()
        invariant
            model.wf(),
            model.children_resolvable(),
            i <= import_scopes.len(),
            candidates@.map_values(|c: (usize, ElementId)| (c.0 as int, c.1)) == import_candidates(
                *model,
                import_scopes@,
                name@,
                i as int,
            ),
            forall|k: int| 0 <= k < candidates@.len() ==> (#[trigger] candidates@[k]).0 < i,
        decreases import_scopes.len() - i,
    {
        assert(names_view(import_scopes[i as int].package@) =~= strs_view(import_scopes[i as int].package@));
        let ghost before = candidates@;
        match model.resolve_in_package(import_scopes[i].package.as_slice(), name) {
            Some(id) => {
                candidates.push((i, id));
                assert(candidates@.map_values(|c: (usize, ElementId)| (c.0 as int, c.1)) =~= before.map_values(
                    |c: (usize, ElementId)| (c.0 as int, c.1),
                ).push((i as int, id)));
            },
            None => {},
        }
        i = i + 1;
    }
    let ghost cv = import_candidates(*model, import_scopes@, name@, import_scopes.len() as int);
    assert(cv.len() == candidates@.len());
    if candidates.len() == 0 {
        match self_package {
            Some(pkg) => {
                assert(names_view(pkg@) =~= strs_view(pkg@));
                match model.resolve_in_package(pkg.as_slice(), name) {
                    Some(id) => {
                        return Some(id);
                    },
                    None => {},
                }
            },
            None => {},
        }
        match at_root {
            Some(id) => {
                return Some(id);
            },
            None => {},
        }
        errors.push(ResolutionError::UnresolvedElement { path: name.clone(), source_info: source_info.duplicate() });
        assert(errors_view(errors@) =~= errors_view(old(errors)@).push(
            ResolutionErrorView::UnresolvedElement { path: name@, source_info: source_info@ },
        ));
        return None;
    }
    if candidates.len() == 1 {
        assert(cv[0] == (candidates@[0].0 as int, candidates@[0].1));
        return Some(candidates[0].1);
    }
    let mut kept: Vec<(usize, ElementId)> = Vec::new();
    let mut j: usize = 0;
    while j < candidates.len()
        invariant
            j <= candidates.len(),
            candidates.len() > 1,
            cv == candidates@.map_values(|c: (usize, ElementId)| (c.0 as int, c.1)),
            forall|k: int| 0 <= k < candidates@.len() ==> (#[trigger] candidates@[k]).0 < import_scopes.len(),
            j > 0 ==> kept@.map_values(|c: (usize, ElementId)| (c.0 as int, c.1)) == dedup_runs(cv.take(j as int)),
            j > 0 ==> kept.len() > 0,
            j == 0 ==> kept.len() == 0,
            forall|k: int| 0 <= k < kept@.len() ==> (#[trigger] kept@[k]).0 < import_scopes.len(),
        decreases candidates.len() - j,
    {
        let ghost before = kept@;
        proof {
            let t = cv.take(j + 1);
            assert(t.drop_last() =~= cv.take(j as int));
            assert(t.last() == cv[j as int]);
            if j == 0 {
                assert(t =~= seq![cv[0]]);
            }
        }
        if j == 0 || kept[kept.len() - 1].1 != candidates[j].1 {
            kept.push(candidates[j]);
        }
        proof {
            if j > 0 {
                assert(dedup_runs(cv.take(j as int)).last() == (
                    before.last().0 as int,
                    before.last().1,
                ));
            }
            assert(kept@.map_values(|c: (usize, ElementId)| (c.0 as int, c.1)) =~= dedup_runs(
                cv.take(j + 1),
            ));
        }
        j = j + 1;
    }
    assert(cv.take(candidates.len() as int) =~= cv);
    let ghost d = dedup_runs(cv);
    if kept.len() == 1 {
        assert(d[0] == (kept@[0].0 as int, kept@[0].1));
        return Some(kept[0].1);
    }
    let mut paths: Vec<String> = Vec::new();
    let mut k: usize = 0;
    while k < kept.len()
        invariant
            k <= kept.len(),
            d == kept@.map_values(|c: (usize, ElementId)| (c.0 as int, c.1)),
            forall|x: int| 0 <= x < kept@.len() ==> (#[trigger] kept@[x]).0 < import_scopes.len(),
            paths.len() == k,
            forall|x: int|
                0 <= x < k ==> #[trigger] paths@[x]@ == join_path(
                    strs_view(import_scopes@[d[x].0].package@).push(name@),
                ),
        decreases kept.len() - k,
    {
        let pth = candidate_path(&import_scopes[kept[k].0], name);
        paths.push(pth);
        k = k + 1;
    }
    let ghost want = Seq::new(
        d.len(),
        |x: int| join_path(strs_view(import_scopes@[d[x].0].package@).push(name@)),
    );
    assert(strs_view(paths@) =~= want);
    errors.push(
        ResolutionError::AmbiguousImport {
            name: name.clone(),
            candidates: paths,
            source_info: source_info.duplicate(),
        },
    );
    assert(errors_view(errors@) =~= errors_view(old(errors)@).push(
        ResolutionErrorView::AmbiguousImport { name: name@, candidates: want, source_info: source_info@ },
    ));
    None
}

// ---------------------------------------------------------------------------
// The per-section memo
// ---------------------------------------------------------------------------

/// A remembered resolution: the element, or the error first reported.
#[derive(Debug)]
pub enum CachedResolution {
    Found(ElementId),
    Failed(ResolutionError),
}

/// View of a [`CachedResolution`].
pub enum CachedResolutionView {
    Found(ElementId),
    Failed(ResolutionErrorView),
}

impl View for CachedResolution {
    type V = CachedResolutionView;

    open spec fn view(&self) -> CachedResolutionView {
        match self {
            CachedResolution::Found(id) => CachedResolutionView::Found(*id),
            CachedResolution::Failed(e) => CachedResolutionView::Failed(e@),
        }
    }
}

/// The same error, reported at `si`.
pub open spec fn error_at(e: ResolutionErrorView, si: SourceInfoView) -> ResolutionErrorView {
    match e {
        ResolutionErrorView::UnresolvedElement { path, .. } => ResolutionErrorView::UnresolvedElement {
            path,
            source_info: si,
        },
        ResolutionErrorView::AmbiguousImport { name, candidates, .. } => ResolutionErrorView::AmbiguousImport {
            name,
            candidates,
            source_info: si,
        },
        ResolutionErrorView::UndeclaredMultiplicityParameter { parameter, .. } =>
            ResolutionErrorView::UndeclaredMultiplicityParameter { parameter, source_info: si },
        ResolutionErrorView::MissingTypeArguments { class_path, expected, got, .. } =>
            ResolutionErrorView::MissingTypeArguments { class_path, expected, got, source_info: si },
        ResolutionErrorView::UnresolvedUnit { path, .. } => ResolutionErrorView::UnresolvedUnit {
            path,
            source_info: si,
        },
        ResolutionErrorView::UnresolvedProfile { path, for_tag, .. } =>
            ResolutionErrorView::UnresolvedProfile { path, for_tag, source_info: si },
        ResolutionErrorView::UnknownAnnotation { profile, name, available, for_tag, .. } =>
            ResolutionErrorView::UnknownAnnotation { profile, name, available, for_tag, source_info: si },
        ResolutionErrorView::NotAProfile { target, for_tag, .. } =>
            ResolutionErrorView::NotAProfile { target, for_tag, source_info: si },
    }
}

fn copy_strings(v: &Vec<String>) -> (r: Vec<String>)
    ensures
        r@ == v@,
{
    let mut r: Vec<String> = Vec::new();
    let mut i: usize = 0;
    while i < v.len()
        invariant
            i <= v.len(),
            r@ == v@.take(i as int),
        decreases v.len() - i,
    {
        r.push(v[i].clone());
        assert(r@ =~= v@.take(i + 1));
        i = i + 1;
    }
    assert(v@.take(v.len() as int) =~= v@);
    r
}

impl ResolutionError {
    /// The same error, reported at `si`.
    pub fn at(&self, si: &SourceInfo) -> (r: ResolutionError)
        ensures
            r@ == error_at(self@, si@),
    {
        match self {
            ResolutionError::UnresolvedElement { path, .. } => ResolutionError::UnresolvedElement {
                path: path.clone(),
                source_info: si.duplicate(),
            },
            ResolutionError::AmbiguousImport { name, candidates, .. } => ResolutionError::AmbiguousImport {
                name: name.clone(),
                candidates: copy_strings(candidates),
                source_info: si.duplicate(),
            },
            ResolutionError::UndeclaredMultiplicityParameter { parameter, .. } =>
                ResolutionError::UndeclaredMultiplicityParameter {
                parameter: parameter.clone(),
                source_info: si.duplicate(),
            },
            ResolutionError::MissingTypeArguments { class_path, expected, got, .. } =>
                ResolutionError::MissingTypeArguments {
                class_path: class_path.clone(),
                expected: *expected,
                got: *got,
                source_info: si.duplicate(),
            },
            ResolutionError::UnresolvedUnit { path, .. } => ResolutionError::UnresolvedUnit {
                path: path.clone(),
                source_info: si.duplicate(),
            },
            ResolutionError::UnresolvedProfile { path, for_tag, .. } => ResolutionError::UnresolvedProfile {
                path: path.clone(),
                for_tag: *for_tag,
                source_info: si.duplicate(),
            },
            ResolutionError::UnknownAnnotation { profile, name, available, for_tag, .. } =>
                ResolutionError::UnknownAnnotation {
                profile: profile.clone(),
                name: name.clone(),
                available: copy_strings(available),
                for_tag: *for_tag,
                source_info: si.duplicate(),
            },
            ResolutionError::NotAProfile { target, for_tag, .. } => ResolutionError::NotAProfile {
                target: target.clone(),
                for_tag: *for_tag,
                source_info: si.duplicate(),
            },
        }
    }
}

/// Memoized resolution of a simple name within a section: a remembered
/// element is returned again; a remembered failure reports its error
/// again at this occurrence; otherwise the name is resolved (see
/// [`resolve_unqualified`]) and the outcome remembered.
pub fn resolve_unqualified_cached(
    name: &String,
    source_info: &SourceInfo,
    model: &PureModel,
    import_scopes: &[ImportScope],
    self_package: Option<&Vec<String>>,
    cache: &mut Vec<(String, CachedResolution)>,
    errors: &mut Vec<ResolutionError>,
) -> (r: Option<ElementId>)
    requires
        model.wf(),
        model.children_resolvable(),
        names_unique(old(cache)@),
    ensures
        names_unique(final(cache)@),
        if assoc_view(old(cache)@).contains_key(name@) {
            &&& final(cache)@ == old(cache)@
            &&& match assoc_view(old(cache)@)[name@] {
                CachedResolutionView::Found(id) => r == Some(id) && final(errors)@ == old(errors)@,
                CachedResolutionView::Failed(e) => r is None && errors_view(final(errors)@) == errors_view(
                    old(errors)@,
                ).push(error_at(e, source_info@)),
            }
        } else {
            match unqualified_outcome(
                *model,
                import_scopes@,
                match self_package {
                    Some(p) => Some(strs_view(p@)),
                    None => None,
                },
                name@,
                source_info@,
            ) {
                Ok(id) => {
                    &&& r == Some(id)
                    &&& final(errors)@ == old(errors)@
                    &&& assoc_view(final(cache)@) == assoc_view(old(cache)@).insert(
                        name@,
                        CachedResolutionView::Found(id),
                    )
                },
                Err(e) => {
                    &&& r is None
                    &&& errors_view(final(errors)@) == errors_view(old(errors)@).push(e)
                    &&& assoc_view(final(cache)@) == assoc_view(old(cache)@).insert(
                        name@,
                        CachedResolutionView::Failed(e),
                    )
                },
            }
        },
{
    match lookup_binding(cache, name.as_str()) {
        Some(CachedResolution::Found(id)) => {
            return Some(*id);
        },
        Some(CachedResolution::Failed(e)) => {
            let again = e.at(source_info);
            errors.push(again);
            assert(errors_view(errors@) =~= errors_view(old(errors)@).push(again@));
            return None;
        },
        None => {},
    }
    let pre_errors = errors.len();
    let result = resolve_unqualified(name, source_info, model, import_scopes, self_package, errors);
    let entry = match result {
        Some(id) => CachedResolution::Found(id),
        None => {
            assert(errors_view(errors@).len() == errors@.len());
            assert(errors_view(old(errors)@).len() == old(errors)@.len());
            assert(errors_view(errors@)[pre_errors as int] == errors@[pre_errors as int]@);
            CachedResolution::Failed(errors[pre_errors].at(source_info))
        },
    };
    proof {
        if result is None {
            let e = errors@[pre_errors as int]@;
            assert(error_at(e, source_info@) == e);
        }
    }
    set_binding(cache, name.clone(), entry);
    result
}

/// Every remembered name maps to what resolving it gives: its element,
/// or its error as reported wherever the name is met.
pub open spec fn memo_sound(
    m: PureModel,
    scopes: Seq<ImportScope>,
    self_package: Option<Seq<Seq<char>>>,
    cache: Map<Seq<char>, CachedResolutionView>,
) -> bool {
    forall|n: Seq<char>|
        #[trigger] cache.contains_key(n) ==> match cache[n] {
            CachedResolutionView::Found(id) => forall|si: SourceInfoView|
                #[trigger] unqualified_outcome(m, scopes, self_package, n, si) == Ok::<
                    ElementId,
                    ResolutionErrorView,
                >(id),
            CachedResolutionView::Failed(e) => forall|si: SourceInfoView|
                #[trigger] unqualified_outcome(m, scopes, self_package, n, si) == Err::<
                    ElementId,
                    ResolutionErrorView,
                >(error_at(e, si)),
        }
}

/// Where a name is met changes only where its error is reported.
pub proof fn lemma_outcome_at(
    m: PureModel,
    scopes: Seq<ImportScope>,
    self_package: Option<Seq<Seq<char>>>,
    n: Seq<char>,
    si1: SourceInfoView,
    si2: SourceInfoView,
)
    ensures
        unqualified_outcome(m, scopes, self_package, n, si2) == match unqualified_outcome(
            m,
            scopes,
            self_package,
            n,
            si1,
        ) {
            Ok(id) => Ok(id),
            Err(e) => Err(error_at(e, si2)),
        },
{
}

/// The memoized resolution of a simple name, stated through what
/// resolving it gives: with a sound memo, a name resolves as
/// [`unqualified_outcome`] says, and the memo stays sound.
pub fn lookup_name(
    name: &String,
    source_info: &SourceInfo,
    model: &PureModel,
    import_scopes: &[ImportScope],
    self_package: Option<&Vec<String>>,
    cache: &mut Vec<(String, CachedResolution)>,
    errors: &mut Vec<ResolutionError>,
) -> (r: Option<ElementId>)
    requires
        model.wf(),
        model.children_resolvable(),
        names_unique(old(cache)@),
        memo_sound(
            *model,
            import_scopes@,
            match self_package {
                Some(p) => Some(strs_view(p@)),
                None => None,
            },
            assoc_view(old(cache)@),
        ),
    ensures
        names_unique(final(cache)@),
        memo_sound(
            *model,
            import_scopes@,
            match self_package {
                Some(p) => Some(strs_view(p@)),
                None => None,
            },
            assoc_view(final(cache)@),
        ),
        match unqualified_outcome(
            *model,
            import_scopes@,
            match self_package {
                Some(p) => Some(strs_view(p@)),
                None => None,
            },
            name@,
            source_info@,
        ) {
            Ok(id) => r == Some(id) && final(errors)@ == old(errors)@,
            Err(e) => r is None && errors_view(final(errors)@) == errors_view(old(errors)@).push(e),
        },
{
    let ghost sp = match self_package {
        Some(p) => Some(strs_view(p@)),
        None => None,
    };
    let ghost c0 = assoc_view(cache@);
    let r = resolve_unqualified_cached(name, source_info, model, import_scopes, self_package, cache, errors);
    proof {
        let o = unqualified_outcome(*model, import_scopes@, sp, name@, source_info@);
        if c0.contains_key(name@) {
            match c0[name@] {
                CachedResolutionView::Found(id) => {
                    assert(unqualified_outcome(*model, import_scopes@, sp, name@, source_info@) == Ok::<
                        ElementId,
                        ResolutionErrorView,
                    >(id));
                },
                CachedResolutionView::Failed(e) => {
                    assert(unqualified_outcome(*model, import_scopes@, sp, name@, source_info@) == Err::<
                        ElementId,
                        ResolutionErrorView,
                    >(error_at(e, source_info@)));
                },
            }
        } else {
            let c1 = assoc_view(cache@);
            assert forall|n: Seq<char>| #[trigger] c1.contains_key(n) implies match c1[n] {
                CachedResolutionView::Found(id) => forall|si: SourceInfoView|
                    #[trigger] unqualified_outcome(*model, import_scopes@, sp, n, si) == Ok::<
                        ElementId,
                        ResolutionErrorView,
                    >(id),
                CachedResolutionView::Failed(e) => forall|si: SourceInfoView|
                    #[trigger] unqualified_outcome(*model, import_scopes@, sp, n, si) == Err::<
                        ElementId,
                        ResolutionErrorView,
                    >(error_at(e, si)),
            } by {
                if n == name@ {
                    match o {
                        Ok(id) => {
                            assert forall|si: SourceInfoView|
                                #[trigger] unqualified_outcome(*model, import_scopes@, sp, n, si) == Ok::<
                                    ElementId,
                                    ResolutionErrorView,
                                >(id) by {
                                lemma_outcome_at(*model, import_scopes@, sp, n, source_info@, si);
                            }
                        },
                        Err(e) => {
                            assert forall|si: SourceInfoView|
                                #[trigger] unqualified_outcome(*model, import_scopes@, sp, n, si) == Err::<
                                    ElementId,
                                    ResolutionErrorView,
                                >(error_at(e, si)) by {
                                lemma_outcome_at(*model, import_scopes@, sp, n, source_info@, si);
                            }
                        },
                    }
                } else {
                    assert(c0.contains_key(n));
                }
            }
        }
    }
    r
}

} // verus!

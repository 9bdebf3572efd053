//! Reference index for IDE navigation: every clickable reference site of
//! a source file, kept per file (cursor to target) and per target element
//! (target to usage sites).

use vstd::prelude::*;

use crate::ids::ElementId;
use crate::milestoning::str_eq;
use crate::model::{lookup, Element, PureModel};
use crate::hierarchy::{
    fresh_marks, is_marked, lemma_mark_decreases, mark, marks_view, push_class_supers, unmarked,
};
use crate::nodes::{Class, Constraint, EnumValue, Property, TaggedValueRef, QualifiedProperty, SpannedString, StereotypeRef, BOOTSTRAP_SOURCE};
use crate::expr::{ExprKind, Parameter, ValueSpec};
use crate::types::{source_view, SourceInfo, SourceInfoView, TypeExpr};
use vstd::utf8::encode_utf8;

verus! {

/// What kind of source reference a site is.
#[derive(Clone, Copy, Debug, PartialEq, Eq, Hash, Structural)]
pub enum RefKind {
    /// `foo()` or `x->foo()`.
    FunctionCall,
    /// `$x.foo`.
    PropertyCall,
    /// `$x.qp(args)`.
    QualifiedPropertyCall,
    /// `$x`.
    Variable,
    /// An element named in a type position or as a value.
    TypeRef,
    /// `MyEnum.VALUE`.
    EnumValue,
    /// `<<Profile.stereo>>`.
    StereotypeRef,
    /// `{Profile.tag = '...'}`.
    TaggedValueRef,
}

/// One source reference: the clickable range and where it leads.
#[derive(Debug)]
pub struct Reference {
    pub range: SourceInfo,
    pub kind: RefKind,
    /// The element referred to, when there is one.
    pub target_element: Option<ElementId>,
    pub target: SourceInfo,
}

/// View of a [`Reference`].
pub struct ReferenceView {
    pub range: SourceInfoView,
    pub kind: RefKind,
    pub target_element: Option<ElementId>,
    pub target: SourceInfoView,
}

impl View for Reference {
    type V = ReferenceView;

    open spec fn view(&self) -> ReferenceView {
        ReferenceView {
            range: self.range@,
            kind: self.kind,
            target_element: self.target_element,
            target: self.target@,
        }
    }
}

/// A usage site of a target: the file, the range and the kind.
#[derive(Debug)]
pub struct RefLocation {
    pub canonical_path: String,
    pub range: SourceInfo,
    pub kind: RefKind,
}

/// View of a [`RefLocation`].
pub struct RefLocationView {
    pub canonical_path: Seq<char>,
    pub range: SourceInfoView,
    pub kind: RefKind,
}

impl View for RefLocation {
    type V = RefLocationView;

    open spec fn view(&self) -> RefLocationView {
        RefLocationView { canonical_path: self.canonical_path@, range: self.range@, kind: self.kind }
    }
}

/// Views of a list of references.
pub open spec fn refs_view(s: Seq<Reference>) -> Seq<ReferenceView> {
    s.map_values(|r: Reference| r@)
}

/// Views of a list of usage sites.
pub open spec fn locs_view(s: Seq<RefLocation>) -> Seq<RefLocationView> {
    s.map_values(|l: RefLocation| l@)
}

/// The references of a file, keyed by its canonical path, and the usage
/// sites of each target element.
#[derive(Debug)]
pub struct ReferenceIndex {
    pub by_file: Vec<(String, Vec<Reference>)>,
    pub by_target: Vec<(ElementId, Vec<RefLocation>)>,
}

/// The references listed for file `path` (the first entry of that path).
pub open spec fn file_refs(files: Seq<(String, Vec<Reference>)>, path: Seq<char>) -> Seq<ReferenceView>
    decreases files.len(),
{
    if files.len() == 0 {
        Seq::empty()
    } else if files[0].0@ == path {
        refs_view(files[0].1@)
    } else {
        file_refs(files.drop_first(), path)
    }
}

/// Some entry is keyed `key`.
pub open spec fn has_key<K, V>(list: Seq<(K, V)>, key: K) -> bool {
    exists|i: int| 0 <= i < list.len() && #[trigger] list[i].0 == key
}

/// The usage site a reference adds for its target.
pub open spec fn location_of(r: ReferenceView) -> RefLocationView {
    RefLocationView { canonical_path: r.range.source, range: r.range, kind: r.kind }
}

/// `span` holds the 1-based position (`line`, `column`); the end column
/// is inclusive.
pub open spec fn span_contains(span: SourceInfoView, line: u32, column: u32) -> bool {
    &&& span.start_line <= line <= span.end_line
    &&& !(line == span.start_line && column < span.start_column)
    &&& !(line == span.end_line && column > span.end_column)
}

/// Size of a span, for picking the narrowest: 1024 per line plus columns
/// (each difference counted as 0 when negative).
pub open spec fn span_area(span: SourceInfoView) -> int {
    let lines: int = if span.end_line >= span.start_line { span.end_line - span.start_line } else { 0 };
    let cols: int = if span.end_column >= span.start_column { span.end_column - span.start_column } else { 0 };
    lines * 1024 + cols
}

/// Among the first `n` references, the position of the first one with the
/// smallest area that holds the position.
pub open spec fn narrowest(refs: Seq<ReferenceView>, line: u32, column: u32, n: int) -> Option<int>
    decreases n,
{
    if n <= 0 || n > refs.len() {
        None
    } else {
        let b = narrowest(refs, line, column, n - 1);
        if span_contains(refs[n - 1].range, line, column) {
            match b {
                None => Some(n - 1),
                Some(j) => if span_area(refs[n - 1].range) < span_area(refs[j].range) {
                    Some(n - 1)
                } else {
                    b
                },
            }
        } else {
            b
        }
    }
}

fn contains(span: &SourceInfo, line: u32, column: u32) -> (r: bool)
    ensures
        r == span_contains(span@, line, column),
{
    if line < span.start_line || line > span.end_line {
        return false;
    }
    if line == span.start_line && column < span.start_column {
        return false;
    }
    if line == span.end_line && column > span.end_column {
        return false;
    }
    true
}

fn area(span: &SourceInfo) -> (r: u64)
    ensures
        r == span_area(span@),
{
    let lines: u64 = if span.end_line >= span.start_line {
        (span.end_line - span.start_line) as u64
    } else {
        0
    };
    let cols: u64 = if span.end_column >= span.start_column {
        (span.end_column - span.start_column) as u64
    } else {
        0
    };
    assert(lines * 1024 <= 0xffff_ffffu64 * 1024) by (nonlinear_arith)
        requires
            lines <= 0xffff_ffffu64,
    ;
    lines * 1024 + cols
}

impl ReferenceIndex {
    /// An empty index.
    pub fn new() -> (r: ReferenceIndex)
        ensures
            r.by_file@.len() == 0,
            r.by_target@.len() == 0,
    {
        ReferenceIndex { by_file: Vec::new(), by_target: Vec::new() }
    }

    /// Adds a reference to the list of its file and, when it has a target
    /// element, a usage site to that target's list.
    pub fn push(&mut self, reference: Reference)
        ensures
            forall|p: Seq<char>|
                #[trigger] file_refs(final(self).by_file@, p) == if p == reference.range.source@ {
                    file_refs(old(self).by_file@, p).push(reference@)
                } else {
                    file_refs(old(self).by_file@, p)
                },
            forall|t: ElementId|
                #[trigger] locs_view(lookup(final(self).by_target@, t)) == if reference.target_element
                    == Some(t) {
                    locs_view(lookup(old(self).by_target@, t)).push(location_of(reference@))
                } else {
                    locs_view(lookup(old(self).by_target@, t))
                },
            forall|t: ElementId|
                #[trigger] has_key(final(self).by_target@, t) <==> has_key(old(self).by_target@, t)
                    || reference.target_element == Some(t),
    {
        match reference.target_element {
            Some(target) => {
                let loc = RefLocation {
                    canonical_path: reference.range.source.clone(),
                    range: reference.range.duplicate(),
                    kind: reference.kind,
                };
                push_location(&mut self.by_target, target, loc);
            },
            None => {},
        }
        let path = reference.range.source.clone();
        push_reference(&mut self.by_file, path, reference);
    }

    /// The narrowest reference of file `canonical_path` whose range holds
    /// the position (the first of the narrowest when several tie).
    pub fn find_at(&self, canonical_path: &str, line: u32, column: u32) -> (r: Option<&Reference>)
        ensures
            match narrowest(
                file_refs(self.by_file@, canonical_path@),
                line,
                column,
                file_refs(self.by_file@, canonical_path@).len() as int,
            ) {
                Some(j) => r matches Some(x) && x@ == file_refs(self.by_file@, canonical_path@)[j],
                None => r is None,
            },
    {
        let refs = match find_file(&self.by_file, canonical_path) {
            Some(i) => &self.by_file[i].1,
            None => {
                assert(file_refs(self.by_file@, canonical_path@).len() == 0);
                return None;
            },
        };
        let ghost rv = file_refs(self.by_file@, canonical_path@);
        assert(rv == refs_view(refs@));
        let mut best: Option<usize> = None;
        let mut i: usize = 0;
        while i < refs.len()
            invariant
                i <= refs.len(),
                rv == refs_view(refs@),
                match narrowest(rv, line, column, i as int) {
                    Some(j) => best matches Some(b) && b == j,
                    None => best is None,
                },
                best matches Some(b) ==> b < i,
            decreases refs.len() - i,
        {
            assert(rv[i as int] == refs@[i as int]@);
            if let Some(b) = best {
                assert(rv[b as int] == refs@[b as int]@);
            }
            if contains(&refs[i].range, line, column) {
                match best {
                    None => {
                        best = Some(i);
                    },
                    Some(b) => {
                        if area(&refs[i].range) < area(&refs[b].range) {
                            best = Some(i);
                        }
                    },
                }
            }
            i = i + 1;
        }
        match best {
            Some(b) => {
                assert(rv[b as int] == refs@[b as int]@);
                Some(&refs[b])
            },
            None => None,
        }
    }

    /// The usage sites of `target`; `None` when nothing refers to it.
    pub fn usages_of(&self, target: ElementId) -> (r: Option<&Vec<RefLocation>>)
        ensures
            match r {
                Some(v) => has_key(self.by_target@, target) && locs_view(v@) == locs_view(
                    lookup(self.by_target@, target),
                ),
                None => !has_key(self.by_target@, target),
            },
    {
        let mut i: usize = 0;
        assert(self.by_target@.skip(0) =~= self.by_target@);
        while i < self.by_target.len()
            invariant
                i <= self.by_target.len(),
                forall|k: int| 0 <= k < i ==> self.by_target@[k].0 != target,
                lookup(self.by_target@, target) == lookup(self.by_target@.skip(i as int), target),
            decreases self.by_target.len() - i,
        {
            assert(self.by_target@.skip(i as int).drop_first() =~= self.by_target@.skip(i + 1));
            if self.by_target[i].0 == target {
                return Some(&self.by_target[i].1);
            }
            i = i + 1;
        }
        None
    }
}

/// Position of the first entry for file `path`.
fn find_file(files: &Vec<(String, Vec<Reference>)>, path: &str) -> (r: Option<usize>)
    ensures
        match r {
            Some(i) => i < files.len() && file_refs(files@, path@) == refs_view(files@[i as int].1@)
                && files@[i as int].0@ == path@ && forall|k: int|
                0 <= k < i ==> #[trigger] files@[k].0@ != path@,
            None => file_refs(files@, path@).len() == 0 && forall|k: int|
                0 <= k < files.len() ==> #[trigger] files@[k].0@ != path@,
        },
{
    let mut i: usize = 0;
    assert(files@.skip(0) =~= files@);
    while i < files.len()
        invariant
            i <= files.len(),
            forall|k: int| 0 <= k < i ==> #[trigger] files@[k].0@ != path@,
            file_refs(files@, path@) == file_refs(files@.skip(i as int), path@),
        decreases files.len() - i,
    {
        assert(files@.skip(i as int).drop_first() =~= files@.skip(i + 1));
        if str_eq(files[i].0.as_str(), path) {
            return Some(i);
        }
        i = i + 1;
    }
    assert(files@.skip(i as int).len() == 0);
    None
}

proof fn lemma_file_refs_update(
    files: Seq<(String, Vec<Reference>)>,
    i: int,
    entry: (String, Vec<Reference>),
    p: Seq<char>,
)
    requires
        0 <= i < files.len(),
        entry.0@ == files[i].0@,
        forall|k: int| 0 <= k < i ==> #[trigger] files[k].0@ != files[i].0@,
    ensures
        file_refs(files.update(i, entry), p) == if p == files[i].0@ {
            refs_view(entry.1@)
        } else {
            file_refs(files, p)
        },
    decreases i,
{
    let u = files.update(i, entry);
    if i > 0 {
        let d = files.drop_first();
        assert forall|k: int| 0 <= k < i - 1 implies #[trigger] d[k].0@ != d[i - 1].0@ by {
            assert(d[k] == files[k + 1]);
            assert(files[k + 1].0@ != files[i].0@);
        }
        lemma_file_refs_update(d, i - 1, entry, p);
        assert(u.drop_first() =~= files.drop_first().update(i - 1, entry));
        assert(u[0] == files[0]);
    } else {
        assert(u.drop_first() =~= files.drop_first());
        assert(u[0] == entry);
    }
}

proof fn lemma_file_refs_push(files: Seq<(String, Vec<Reference>)>, entry: (String, Vec<Reference>), p: Seq<char>)
    requires
        forall|k: int| 0 <= k < files.len() ==> #[trigger] files[k].0@ != entry.0@,
    ensures
        file_refs(files.push(entry), p) == if p == entry.0@ {
            refs_view(entry.1@)
        } else {
            file_refs(files, p)
        },
    decreases files.len(),
{
    if files.len() > 0 {
        let d = files.drop_first();
        assert forall|k: int| 0 <= k < d.len() implies #[trigger] d[k].0@ != entry.0@ by {
            assert(d[k] == files[k + 1]);
            assert(files[k + 1].0@ != entry.0@);
        }
        lemma_file_refs_push(d, entry, p);
        let u = files.push(entry);
        assert(u.drop_first() =~= files.drop_first().push(entry));
        assert(u[0] == files[0]);
        assert(files[0].0@ != entry.0@);
        if files[0].0@ == p {
            assert(file_refs(u, p) == refs_view(files[0].1@));
            assert(file_refs(files, p) == refs_view(files[0].1@));
        } else {
            assert(file_refs(u, p) == file_refs(u.drop_first(), p));
            assert(file_refs(files, p) == file_refs(files.drop_first(), p));
        }
    } else {
        assert(files.push(entry).drop_first() =~= Seq::<(String, Vec<Reference>)>::empty());
        assert(files.push(entry)[0] == entry);
        assert(file_refs(files.push(entry).drop_first(), p) == Seq::<ReferenceView>::empty());
    }
}

fn push_reference(files: &mut Vec<(String, Vec<Reference>)>, path: String, r: Reference)
    requires
        path@ == r.range.source@,
    ensures
        forall|p: Seq<char>|
            #[trigger] file_refs(final(files)@, p) == if p == path@ {
                file_refs(old(files)@, p).push(r@)
            } else {
                file_refs(old(files)@, p)
            },
{
    let ghost rv = r@;
    match find_file(files, path.as_str()) {
        Some(i) => {
            let ghost before = files@;
            let entry = files.remove(i);
            let name = entry.0;
            let mut list = entry.1;
            let ghost l0 = list@;
            list.push(r);
            assert(refs_view(list@) =~= refs_view(l0).push(rv));
            files.insert(i, (name, list));
            proof {
                assert(files@ =~= before.update(i as int, files@[i as int]));
                assert forall|k: int| 0 <= k < i implies #[trigger] before[k].0@ != before[i as int].0@ by {
                    assert(before[k].0@ != path@);
                }
                assert forall|p: Seq<char>| #[trigger] file_refs(files@, p) == if p == path@ {
                    file_refs(before, p).push(rv)
                } else {
                    file_refs(before, p)
                } by {
                    lemma_file_refs_update(before, i as int, files@[i as int], p);
                }
            }
        },
        None => {
            let ghost before = files@;
            let mut list: Vec<Reference> = Vec::new();
            list.push(r);
            assert(refs_view(list@) =~= seq![rv]);
            files.push((path, list));
            proof {
                assert forall|p: Seq<char>| #[trigger] file_refs(files@, p) == if p == path@ {
                    file_refs(before, p).push(rv)
                } else {
                    file_refs(before, p)
                } by {
                    lemma_file_refs_push(before, files@.last(), p);
                    assert(files@ == before.push(files@.last()));
                    assert(file_refs(before, path@).push(rv) =~= seq![rv]);
                }
            }
        },
    }
}

fn push_location(targets: &mut Vec<(ElementId, Vec<RefLocation>)>, t: ElementId, loc: RefLocation)
    ensures
        forall|x: ElementId|
            #[trigger] locs_view(lookup(final(targets)@, x)) == if x == t {
                locs_view(lookup(old(targets)@, x)).push(loc@)
            } else {
                locs_view(lookup(old(targets)@, x))
            },
        forall|x: ElementId| #[trigger] has_key(final(targets)@, x) <==> has_key(old(targets)@, x) || x == t,
{
    let ghost before = targets@;
    let ghost lv = loc@;
    let mut i: usize = 0;
    while i < targets.len()
        invariant
            i <= targets.len(),
            targets@ == before,
            before == old(targets)@,
            lv == loc@,
            forall|k: int| 0 <= k < i ==> #[trigger] targets@[k].0 != t,
        decreases targets.len() - i,
    {
        if targets[i].0 == t {
            assert(before[i as int].0 == t);
            assert forall|k: int| 0 <= k < i implies #[trigger] before[k].0 != before[i as int].0 by {
                assert(targets@[k].0 != t);
            }
            let entry = targets.remove(i);
            let mut list = entry.1;
            let ghost l0 = list@;
            list.push(loc);
            assert(locs_view(list@) =~= locs_view(l0).push(lv));
            targets.insert(i, (t, list));
            proof {
                assert(targets@ =~= before.update(i as int, targets@[i as int]));
                assert forall|x: ElementId| #[trigger] locs_view(lookup(targets@, x)) == if x == t {
                    locs_view(lookup(before, x)).push(lv)
                } else {
                    locs_view(lookup(before, x))
                } by {
                    lemma_lookup_update(before, i as int, targets@[i as int], x);
                    lemma_lookup_update(before, i as int, before[i as int], x);
                    assert(before.update(i as int, before[i as int]) =~= before);
                    assert(l0 == before[i as int].1@);
                }
                assert forall|x: ElementId| #[trigger] has_key(targets@, x) <==> has_key(before, x) || x == t by {
                    if has_key(before, x) {
                        let k = choose|k: int| 0 <= k < before.len() && #[trigger] before[k].0 == x;
                        assert(targets@[k].0 == x);
                    }
                    if has_key(targets@, x) {
                        let k = choose|k: int| 0 <= k < targets@.len() && #[trigger] targets@[k].0 == x;
                        assert(before[k].0 == x);
                    }
                    assert(targets@[i as int].0 == t);
                }
            }
            return;
        }
        i = i + 1;
    }
    let mut list: Vec<RefLocation> = Vec::new();
    list.push(loc);
    assert(locs_view(list@) =~= seq![lv]);
    targets.push((t, list));
    proof {
        assert forall|x: ElementId| #[trigger] locs_view(lookup(targets@, x)) == if x == t {
            locs_view(lookup(before, x)).push(lv)
        } else {
            locs_view(lookup(before, x))
        } by {
            lemma_lookup_push(before, targets@.last(), x);
            assert(targets@ == before.push(targets@.last()));
            if x == t {
                lemma_lookup_absent(before, t);
                assert(locs_view(lookup(before, x)).push(lv) =~= seq![lv]);
            }
        }
        assert forall|x: ElementId| #[trigger] has_key(targets@, x) <==> has_key(before, x) || x == t by {
            if has_key(before, x) {
                let k = choose|k: int| 0 <= k < before.len() && #[trigger] before[k].0 == x;
                assert(targets@[k].0 == x);
            }
            if has_key(targets@, x) {
                let k = choose|k: int| 0 <= k < targets@.len() && #[trigger] targets@[k].0 == x;
                if k < before.len() {
                    assert(before[k].0 == x);
                }
            }
            assert(targets@[before.len() as int].0 == t);
        }
    }
}

proof fn lemma_lookup_update<V>(list: Seq<(ElementId, Vec<V>)>, i: int, entry: (ElementId, Vec<V>), x: ElementId)
    requires
        0 <= i < list.len(),
        entry.0 == list[i].0,
        forall|k: int| 0 <= k < i ==> #[trigger] list[k].0 != list[i].0,
    ensures
        lookup(list.update(i, entry), x) == if x == list[i].0 {
            entry.1@
        } else {
            lookup(list, x)
        },
    decreases i,
{
    let u = list.update(i, entry);
    if i > 0 {
        let d = list.drop_first();
        assert forall|k: int| 0 <= k < i - 1 implies #[trigger] d[k].0 != d[i - 1].0 by {
            assert(d[k] == list[k + 1]);
            assert(list[k + 1].0 != list[i].0);
        }
        lemma_lookup_update(d, i - 1, entry, x);
        assert(u.drop_first() =~= list.drop_first().update(i - 1, entry));
        assert(u[0] == list[0]);
    } else {
        assert(u.drop_first() =~= list.drop_first());
        assert(u[0] == entry);
    }
}

proof fn lemma_lookup_push<V>(list: Seq<(ElementId, Vec<V>)>, entry: (ElementId, Vec<V>), x: ElementId)
    requires
        forall|k: int| 0 <= k < list.len() ==> #[trigger] list[k].0 != entry.0,
    ensures
        lookup(list.push(entry), x) == if x == entry.0 {
            entry.1@
        } else {
            lookup(list, x)
        },
    decreases list.len(),
{
    if list.len() > 0 {
        let d = list.drop_first();
        assert forall|k: int| 0 <= k < d.len() implies #[trigger] d[k].0 != entry.0 by {
            assert(d[k] == list[k + 1]);
            assert(list[k + 1].0 != entry.0);
        }
        lemma_lookup_push(d, entry, x);
        let u = list.push(entry);
        assert(u.drop_first() =~= list.drop_first().push(entry));
        assert(u[0] == list[0]);
        assert(list[0].0 != entry.0);
        if list[0].0 == x {
            assert(lookup(u, x) == list[0].1@);
        } else {
            assert(lookup(u, x) == lookup(u.drop_first(), x));
        }
    } else {
        assert(list.push(entry).drop_first() =~= Seq::<(ElementId, Vec<V>)>::empty());
        assert(list.push(entry)[0] == entry);
        assert(lookup(list.push(entry).drop_first(), x) == Seq::<V>::empty());
    }
}

proof fn lemma_lookup_absent<V>(list: Seq<(ElementId, Vec<V>)>, x: ElementId)
    requires
        forall|k: int| 0 <= k < list.len() ==> #[trigger] list[k].0 != x,
    ensures
        lookup(list, x).len() == 0,
    decreases list.len(),
{
    if list.len() > 0 {
        lemma_lookup_absent(list.drop_first(), x);
    }
}


// ---------------------------------------------------------------------------
// Reference sites of types and stereotypes
// ---------------------------------------------------------------------------

/// Where a reference to `id` leads: the element's declaration span, when
/// `id` names an element of the model.
pub open spec fn target_span(m: PureModel, id: ElementId) -> Option<SourceInfoView> {
    if m.valid_id(id) && m.valid_node(id) {
        Some(m.node(id).source_info@)
    } else {
        None
    }
}

/// The declaration span of element `target`, when it is one of the model's.
pub fn element_target_span(model: &PureModel, target: ElementId) -> (r: Option<SourceInfo>)
    ensures
        match r {
            Some(x) => target_span(*model, target) == Some(x@),
            None => target_span(*model, target) is None,
        },
{
    if model.try_get_element(target).is_none() {
        return None;
    }
    if (target.chunk_id as usize) < model.chunks.len() && (target.local_idx as usize)
        < model.chunks[target.chunk_id as usize].nodes.items.len() {
        Some(model.get_node(target).source_info.duplicate())
    } else {
        None
    }
}

/// Number of direct sub-types of a type expression that are walked in
/// order (type arguments, function parameters).
pub open spec fn width(t: TypeExpr) -> nat {
    match t {
        TypeExpr::Named { type_arguments, .. } => type_arguments.len() as nat,
        TypeExpr::FunctionType { parameters, .. } => parameters.len() as nat,
        _ => 0,
    }
}

/// The type references of a type expression, in order: each `Named` node
/// with a recorded span and a known element, then its type arguments;
/// function parameter types then the return type; both sides of a union.
pub open spec fn type_refs(m: PureModel, t: TypeExpr) -> Seq<ReferenceView>
    decreases t, width(t) + 1,
{
    match t {
        TypeExpr::Named { element, source_info, type_arguments, .. } => {
            let own = match source_info {
                Some(range) => match target_span(m, element) {
                    Some(tg) => seq![
                        ReferenceView {
                            range: range@,
                            kind: RefKind::TypeRef,
                            target_element: Some(element),
                            target: tg,
                        },
                    ],
                    None => Seq::empty(),
                },
                None => Seq::empty(),
            };
            own + inner_refs(m, t, type_arguments.len() as int)
        },
        TypeExpr::FunctionType { parameters, return_type, .. } => inner_refs(
            m,
            t,
            parameters.len() as int,
        ) + type_refs(m, *return_type),
        TypeExpr::AlgebraUnion(a, b) => type_refs(m, *a) + type_refs(m, *b),
        _ => Seq::empty(),
    }
}

/// The type references of the first `n` type arguments (of a `Named`
/// node) or parameter types (of a function type).
pub open spec fn inner_refs(m: PureModel, t: TypeExpr, n: int) -> Seq<ReferenceView>
    decreases t, n,
{
    if n <= 0 || n > width(t) {
        Seq::empty()
    } else {
        match t {
            TypeExpr::Named { type_arguments, .. } => inner_refs(m, t, n - 1) + type_refs(
                m,
                type_arguments[n - 1],
            ),
            TypeExpr::FunctionType { parameters, .. } => inner_refs(m, t, n - 1) + type_refs(
                m,
                parameters[n - 1].0,
            ),
            _ => Seq::empty(),
        }
    }
}

/// Appends the type references of `ty` (see [`type_refs`]).
pub fn walk_type_expr(model: &PureModel, ty: &TypeExpr, out: &mut Vec<Reference>)
    ensures
        refs_view(final(out)@) == refs_view(old(out)@) + type_refs(*model, *ty),
    decreases ty, width(*ty) + 1,
{
    match ty {
        TypeExpr::Named { element, source_info, type_arguments, .. } => {
            let ghost o0 = refs_view(out@);
            match source_info {
                Some(range) => match element_target_span(model, *element) {
                    Some(target) => {
                        let r = Reference {
                            range: range.duplicate(),
                            kind: RefKind::TypeRef,
                            target_element: Some(*element),
                            target,
                        };
                        let ghost rv = r@;
                        out.push(r);
                        assert(refs_view(out@) =~= o0.push(rv));
                    },
                    None => {},
                },
                None => {},
            }
            let ghost o1 = refs_view(out@);
            let mut i: usize = 0;
            while i < type_arguments.len()
                invariant
                    i <= type_arguments.len(),
                    width(*ty) == type_arguments.len(),
                    *ty matches TypeExpr::Named { type_arguments: ta, .. } && ta == *type_arguments,
                    refs_view(out@) == o1 + inner_refs(*model, *ty, i as int),
                decreases type_arguments.len() - i,
            {
                let ghost before = refs_view(out@);
                walk_type_expr(model, &type_arguments[i], out);
                assert(refs_view(out@) =~= o1 + inner_refs(*model, *ty, i + 1));
                i = i + 1;
            }
            assert(refs_view(out@) =~= o0 + type_refs(*model, *ty));
        },
        TypeExpr::FunctionType { parameters, return_type, .. } => {
            let ghost o0 = refs_view(out@);
            let mut i: usize = 0;
            while i < parameters.len()
                invariant
                    i <= parameters.len(),
                    width(*ty) == parameters.len(),
                    *ty matches TypeExpr::FunctionType { parameters: ps, .. } && ps == *parameters,
                    refs_view(out@) == o0 + inner_refs(*model, *ty, i as int),
                decreases parameters.len() - i,
            {
                walk_type_expr(model, &parameters[i].0, out);
                assert(refs_view(out@) =~= o0 + inner_refs(*model, *ty, i + 1));
                i = i + 1;
            }
            let ghost o1 = refs_view(out@);
            walk_type_expr(model, &**return_type, out);
            assert(refs_view(out@) =~= o0 + type_refs(*model, *ty));
        },
        TypeExpr::AlgebraUnion(a, b) => {
            let ghost o0 = refs_view(out@);
            walk_type_expr(model, &**a, out);
            walk_type_expr(model, &**b, out);
            assert(refs_view(out@) =~= o0 + type_refs(*model, *ty));
        },
        _ => {
            assert(refs_view(out@) =~= refs_view(old(out)@) + type_refs(*model, *ty));
        },
    }
}


/// The span of the first declaration named `name` in `decls`, unless that
/// declaration comes from the bootstrap sources.
pub open spec fn decl_span(decls: Seq<SpannedString>, name: Seq<char>) -> Option<SourceInfoView>
    decreases decls.len(),
{
    if decls.len() == 0 {
        None
    } else if decls[0].value@ == name {
        if decls[0].source_info.source@ == BOOTSTRAP_SOURCE@ {
            None
        } else {
            Some(decls[0].source_info@)
        }
    } else {
        decl_span(decls.drop_first(), name)
    }
}

/// Where a stereotype application leads: the stereotype's declaration in
/// its profile when it has one of its own, else the profile itself.
pub open spec fn stereo_target(m: PureModel, st: StereotypeRef) -> Option<SourceInfoView> {
    let own = match m.elem(st.profile) {
        Element::Profile(p) => decl_span(p.stereotypes@, st.value@),
        _ => None,
    };
    match own {
        Some(d) => Some(d),
        None => target_span(m, st.profile),
    }
}

/// The references of the first `n` stereotype applications: each one with
/// a recorded span whose profile is an element of the model.
pub open spec fn stereo_refs(m: PureModel, s: Seq<StereotypeRef>, n: int) -> Seq<ReferenceView>
    decreases n,
{
    if n <= 0 || n > s.len() {
        Seq::empty()
    } else {
        let prev = stereo_refs(m, s, n - 1);
        let st = s[n - 1];
        match st.source_info {
            Some(range) => if m.valid_id(st.profile) {
                match stereo_target(m, st) {
                    Some(tg) => prev.push(
                        ReferenceView {
                            range: range@,
                            kind: RefKind::StereotypeRef,
                            target_element: Some(st.profile),
                            target: tg,
                        },
                    ),
                    None => prev,
                }
            } else {
                prev
            },
            None => prev,
        }
    }
}

fn find_decl_span(decls: &Vec<SpannedString>, name: &String) -> (r: Option<SourceInfo>)
    ensures
        match r {
            Some(x) => decl_span(decls@, name@) == Some(x@),
            None => decl_span(decls@, name@) is None,
        },
{
    let mut i: usize = 0;
    assert(decls@.skip(0) =~= decls@);
    while i < decls.len()
        invariant
            i <= decls.len(),
            decl_span(decls@, name@) == decl_span(decls@.skip(i as int), name@),
        decreases decls.len() - i,
    {
        assert(decls@.skip(i as int).drop_first() =~= decls@.skip(i + 1));
        assert(decls@.skip(i as int)[0] == decls@[i as int]);
        if str_eq(decls[i].value.as_str(), name.as_str()) {
            if str_eq(decls[i].source_info.source.as_str(), BOOTSTRAP_SOURCE) {
                return None;
            }
            return Some(decls[i].source_info.duplicate());
        }
        i = i + 1;
    }
    None
}

/// Appends the references of stereotype applications (see
/// [`stereo_refs`]).
pub fn walk_stereotypes(model: &PureModel, stereotypes: &[StereotypeRef], out: &mut Vec<Reference>)
    ensures
        refs_view(final(out)@) == refs_view(old(out)@) + stereo_refs(
            *model,
            stereotypes@,
            stereotypes@.len() as int,
        ),
{
    let ghost o0 = refs_view(out@);
    let mut i: usize = 0;
    while i < stereotypes.len()
        invariant
            i <= stereotypes.len(),
            refs_view(out@) == o0 + stereo_refs(*model, stereotypes@, i as int),
        decreases stereotypes.len() - i,
    {
        let st = &stereotypes[i];
        let ghost prev = refs_view(out@);
        match &st.source_info {
            Some(range) => match model.try_get_element(st.profile) {
                Some(element) => {
                    let own = match element {
                        Element::Profile(p) => find_decl_span(&p.stereotypes, &st.value),
                        _ => None,
                    };
                    let target = match own {
                        Some(d) => Some(d),
                        None => element_target_span(model, st.profile),
                    };
                    match target {
                        Some(tg) => {
                            let r = Reference {
                                range: range.duplicate(),
                                kind: RefKind::StereotypeRef,
                                target_element: Some(st.profile),
                                target: tg,
                            };
                            let ghost rv = r@;
                            out.push(r);
                            assert(refs_view(out@) =~= prev.push(rv));
                        },
                        None => {},
                    }
                },
                None => {},
            },
            None => {},
        }
        assert(refs_view(out@) =~= o0 + stereo_refs(*model, stereotypes@, i + 1));
        i = i + 1;
    }
}


// ---------------------------------------------------------------------------
// Members reached through the class hierarchy
// ---------------------------------------------------------------------------

/// The classes reached depth-first from `stack` (next one first), in
/// visiting order: each class once, the first time it is met; its `Named`
/// supertypes are visited, in order, before what was waiting. Elements
/// that are not classes are passed over.
pub open spec fn dfs_from(m: PureModel, stack: Seq<ElementId>, marks: Seq<Seq<bool>>) -> Seq<ElementId>
    decreases unmarked(marks), stack.len(),
    when m.marks_fit(marks)
{
    if stack.len() == 0 {
        Seq::empty()
    } else {
        let cur = stack[0];
        if !m.is_class(cur) || is_marked(marks, cur) {
            dfs_from(m, stack.drop_first(), marks)
        } else {
            proof {
                lemma_mark_decreases(m, marks, cur);
            }
            seq![cur] + dfs_from(m, m.class_supers(cur) + stack.drop_first(), mark(marks, cur))
        }
    }
}

/// The declaration span of the member `name` of class `id`: a property
/// first (a qualified property first when `qualified`), then the other
/// kind.
pub open spec fn member_span(m: PureModel, id: ElementId, name: Seq<char>, qualified: bool) -> Option<
    SourceInfoView,
> {
    match m.elem(id) {
        Element::Class(c) => {
            let p = first_property_span(c.properties@, name);
            let q = first_qualified_span(c.qualified_properties@, name);
            if !qualified && p is Some {
                p
            } else if q is Some {
                q
            } else if qualified {
                p
            } else {
                None
            }
        },
        _ => None,
    }
}

/// Span of the first property named `name`.
pub open spec fn first_property_span(ps: Seq<Property>, name: Seq<char>) -> Option<SourceInfoView>
    decreases ps.len(),
{
    if ps.len() == 0 {
        None
    } else if ps[0].name@ == name {
        Some(ps[0].source_info@)
    } else {
        first_property_span(ps.drop_first(), name)
    }
}

/// Span of the first qualified property named `name`.
pub open spec fn first_qualified_span(ps: Seq<QualifiedProperty>, name: Seq<char>) -> Option<SourceInfoView>
    decreases ps.len(),
{
    if ps.len() == 0 {
        None
    } else if ps[0].name@ == name {
        Some(ps[0].source_info@)
    } else {
        first_qualified_span(ps.drop_first(), name)
    }
}

/// The first member span found along `order`.
pub open spec fn first_member(m: PureModel, order: Seq<ElementId>, name: Seq<char>, qualified: bool) -> Option<
    SourceInfoView,
>
    decreases order.len(),
{
    if order.len() == 0 {
        None
    } else {
        match member_span(m, order[0], name, qualified) {
            Some(s) => Some(s),
            None => first_member(m, order.drop_first(), name, qualified),
        }
    }
}

/// Where a member access on a receiver of class `start` leads: the first
/// class of its hierarchy, depth-first, declaring the member.
pub open spec fn member_target(m: PureModel, start: ElementId, name: Seq<char>, qualified: bool) -> Option<
    SourceInfoView,
> {
    first_member(m, dfs_from(m, seq![start], m.fresh_marks()), name, qualified)
}

fn property_span(ps: &Vec<Property>, name: &String) -> (r: Option<SourceInfo>)
    ensures
        match r {
            Some(x) => first_property_span(ps@, name@) == Some(x@),
            None => first_property_span(ps@, name@) is None,
        },
{
    let mut i: usize = 0;
    assert(ps@.skip(0) =~= ps@);
    while i < ps.len()
        invariant
            i <= ps.len(),
            first_property_span(ps@, name@) == first_property_span(ps@.skip(i as int), name@),
        decreases ps.len() - i,
    {
        assert(ps@.skip(i as int).drop_first() =~= ps@.skip(i + 1));
        assert(ps@.skip(i as int)[0] == ps@[i as int]);
        if str_eq(ps[i].name.as_str(), name.as_str()) {
            return Some(ps[i].source_info.duplicate());
        }
        i = i + 1;
    }
    None
}

fn qualified_span(ps: &Vec<QualifiedProperty>, name: &String) -> (r: Option<SourceInfo>)
    ensures
        match r {
            Some(x) => first_qualified_span(ps@, name@) == Some(x@),
            None => first_qualified_span(ps@, name@) is None,
        },
{
    let mut i: usize = 0;
    assert(ps@.skip(0) =~= ps@);
    while i < ps.len()
        invariant
            i <= ps.len(),
            first_qualified_span(ps@, name@) == first_qualified_span(ps@.skip(i as int), name@),
        decreases ps.len() - i,
    {
        assert(ps@.skip(i as int).drop_first() =~= ps@.skip(i + 1));
        assert(ps@.skip(i as int)[0] == ps@[i as int]);
        if str_eq(ps[i].name.as_str(), name.as_str()) {
            return Some(ps[i].source_info.duplicate());
        }
        i = i + 1;
    }
    None
}

/// The declaration span of member `name` in class `c` (see [`member_span`]).
fn class_member_span(c: &Class, name: &String, qualified: bool) -> (r: Option<SourceInfo>)
    ensures
        forall|m: PureModel, id: ElementId|
            m.elem(id) == Element::Class(*c) ==> match r {
                Some(x) => member_span(m, id, name@, qualified) == Some(x@),
                None => member_span(m, id, name@, qualified) is None,
            },
{
    let p = property_span(&c.properties, name);
    let q = qualified_span(&c.qualified_properties, name);
    if !qualified && p.is_some() {
        p
    } else if q.is_some() {
        q
    } else if qualified {
        p
    } else {
        None
    }
}

/// The declaration span of member `name` reached from class `start`
/// (see [`member_target`]).
pub fn member_decl_span(model: &PureModel, start: ElementId, name: &String, qualified: bool) -> (r: Option<
    SourceInfo,
>)
    ensures
        match r {
            Some(x) => member_target(*model, start, name@, qualified) == Some(x@),
            None => member_target(*model, start, name@, qualified) is None,
        },
{
    let mut marks = fresh_marks(model);
    let mut stack: Vec<ElementId> = Vec::new();
    stack.push(start);
    assert(stack@ =~= seq![start]);
    while stack.len() > 0
        invariant
            model.marks_fit(marks_view(marks@)),
            member_target(*model, start, name@, qualified) == first_member(
                *model,
                dfs_from(*model, stack@, marks_view(marks@)),
                name@,
                qualified,
            ),
        decreases unmarked(marks_view(marks@)), stack.len(),
    {
        let cur = stack[0];
        let ghost st = stack@;
        let ghost mv = marks_view(marks@);
        let rest = tail(&stack);
        match model.try_get_element(cur) {
            Some(Element::Class(c)) => {
                let ci = cur.chunk_id as usize;
                let li = cur.local_idx as usize;
                assert(mv[ci as int].len() == model.chunks@[ci as int].elements.items.len());
                assert(st[0] == cur);
                if marks[ci][li] {
                    assert(is_marked(mv, cur));
                    assert(dfs_from(*model, st, mv) == dfs_from(*model, st.drop_first(), mv));
                    stack = rest;
                    continue;
                }
                proof {
                    lemma_mark_decreases(*model, mv, cur);
                }
                marks[ci][li] = true;
                assert(marks_view(marks@) =~= mark(mv, cur));
                let found = class_member_span(c, name, qualified);
                let ghost order = dfs_from(*model, model.class_supers(cur) + st.drop_first(), mark(mv, cur));
                assert(dfs_from(*model, st, mv) == seq![cur] + order);
                assert((seq![cur] + order)[0] == cur);
                assert((seq![cur] + order).drop_first() =~= order);
                match found {
                    Some(x) => {
                        return Some(x);
                    },
                    None => {},
                }
                let mut next: Vec<ElementId> = Vec::new();
                push_class_supers(&mut next, c);
                append_ids(&mut next, &rest);
                assert(next@ =~= model.class_supers(cur) + st.drop_first());
                stack = next;
            },
            _ => {
                assert(st[0] == cur);
                assert(!model.is_class(cur));
                assert(dfs_from(*model, st, mv) == dfs_from(*model, st.drop_first(), mv));
                stack = rest;
            },
        }
    }
    None
}

/// Everything but the first entry.
fn tail(v: &Vec<ElementId>) -> (r: Vec<ElementId>)
    requires
        v.len() > 0,
    ensures
        r@ == v@.drop_first(),
{
    let mut r: Vec<ElementId> = Vec::new();
    let mut i: usize = 1;
    while i < v.len()
        invariant
            1 <= i <= v.len(),
            r@ == v@.subrange(1, i as int),
        decreases v.len() - i,
    {
        r.push(v[i]);
        assert(r@ =~= v@.subrange(1, i + 1));
        i = i + 1;
    }
    assert(v@.subrange(1, v.len() as int) =~= v@.drop_first());
    r
}

fn append_ids(v: &mut Vec<ElementId>, w: &Vec<ElementId>)
    ensures
        final(v)@ == old(v)@ + w@,
{
    let mut i: usize = 0;
    while i < w.len()
        invariant
            i <= w.len(),
            v@ == old(v)@ + w@.take(i as int),
        decreases w.len() - i,
    {
        v.push(w[i]);
        assert(w@.take(i + 1) =~= w@.take(i as int).push(w@[i as int]));
        i = i + 1;
    }
    assert(w@.take(i as int) =~= w@);
}


// ---------------------------------------------------------------------------
// Reference sites of expressions
// ---------------------------------------------------------------------------

/// The first parameter named `name`.
pub open spec fn first_param(ps: Seq<Parameter>, name: Seq<char>) -> Option<Parameter>
    decreases ps.len(),
{
    if ps.len() == 0 {
        None
    } else if ps[0].name@ == name {
        Some(ps[0])
    } else {
        first_param(ps.drop_first(), name)
    }
}

/// Where a variable leads: the declaration of the parameter binding it in
/// the innermost parameter list (the last of `scope`) that has one.
pub open spec fn var_target(scope: Seq<Seq<Parameter>>, name: Seq<char>) -> Option<SourceInfoView>
    decreases scope.len(),
{
    if scope.len() == 0 {
        None
    } else {
        match first_param(scope.last(), name) {
            Some(p) => source_view(p.source_info),
            None => var_target(scope.drop_last(), name),
        }
    }
}

/// The span of a call's function name: just past `first_arg->` in the
/// arrow form (the first argument starting where the call starts), at the
/// call's start otherwise; nothing when the span would cross lines or
/// overflow. The name's length counts its UTF-8 bytes (as a `usize`).
pub open spec fn call_name_span(vs: ValueSpec, args: Seq<ValueSpec>, name: Seq<char>) -> Option<SourceInfoView> {
    let outer = vs.source_info@;
    let bl = (encode_utf8(name).len() as usize) as nat;
    if args.len() > 0 && args[0].source_info.start_line == outer.start_line
        && args[0].source_info.start_column == outer.start_column {
        let a = args[0].source_info@;
        if a.end_line != outer.end_line || a.end_column + 2 + bl > u32::MAX {
            None
        } else {
            Some(
                SourceInfoView {
                    source: outer.source,
                    start_line: a.end_line,
                    start_column: (a.end_column + 2) as u32,
                    end_line: a.end_line,
                    end_column: (a.end_column + 2 + bl) as u32,
                },
            )
        }
    } else if outer.start_line != outer.end_line || outer.start_column + bl > u32::MAX {
        None
    } else {
        Some(
            SourceInfoView {
                source: outer.source,
                start_line: outer.start_line,
                start_column: outer.start_column,
                end_line: outer.start_line,
                end_column: (outer.start_column + bl) as u32,
            },
        )
    }
}

/// The span of the first value named `name`.
pub open spec fn first_value_span(vs: Seq<EnumValue>, name: Seq<char>) -> Option<SourceInfoView>
    decreases vs.len(),
{
    if vs.len() == 0 {
        None
    } else if vs[0].name@ == name {
        Some(vs[0].source_info@)
    } else {
        first_value_span(vs.drop_first(), name)
    }
}

/// `Enum.VALUE` written as a property access: the declaration of the
/// value, when the receiver names an enumeration declaring it.
pub open spec fn enum_target(m: PureModel, receiver: ValueSpec, name: Seq<char>) -> Option<SourceInfoView> {
    match *receiver.kind {
        ExprKind::PackageableElementRef { element } => if m.valid_id(element) {
            match m.elem(element) {
                Element::Enumeration(e) => first_value_span(e.values@, name),
                _ => None,
            }
        } else {
            None
        },
        _ => None,
    }
}

/// A member access on a receiver whose inferred type is a named class:
/// the member's declaration in that class's hierarchy.
pub open spec fn prop_target(m: PureModel, receiver: ValueSpec, name: Seq<char>, qualified: bool) -> Option<
    SourceInfoView,
> {
    match receiver.type_info {
        Some(t) => match t.type_expr {
            TypeExpr::Named { element, .. } => member_target(m, element, name, qualified),
            _ => None,
        },
        None => None,
    }
}

/// A one-reference sequence when the target is known.
pub open spec fn one_ref(
    range: SourceInfoView,
    kind: RefKind,
    target_element: Option<ElementId>,
    target: Option<SourceInfoView>,
) -> Seq<ReferenceView> {
    match target {
        Some(tg) => seq![ReferenceView { range, kind, target_element, target: tg }],
        None => Seq::empty(),
    }
}

/// The reference sites of an expression, in order, with `scope` the
/// parameter lists in force (innermost last): resolved calls, member
/// accesses and enumeration values, bound variables, element and type
/// references, then, recursively, arguments, collection elements and
/// lambda bodies (a lambda's parameters joining the scope).
pub open spec fn refs_of(m: PureModel, vs: ValueSpec, scope: Seq<Seq<Parameter>>) -> Seq<ReferenceView>
    decreases vs, 1int,
{
    let si = vs.source_info@;
    match *vs.kind {
        ExprKind::FunctionCall(d) => {
            let own = match d.function {
                Some(f) => one_ref(
                    match call_name_span(vs, d.arguments@, d.function_name@) {
                        Some(r) => r,
                        None => si,
                    },
                    RefKind::FunctionCall,
                    Some(f),
                    target_span(m, f),
                ),
                None => Seq::empty(),
            };
            own + list_refs(m, *vs.kind, scope, d.arguments.len() as int)
        },
        ExprKind::PropertyCall(d) => {
            let own = if d.arguments.len() > 0 {
                one_ref(
                    si,
                    RefKind::PropertyCall,
                    None,
                    match prop_target(m, d.arguments@[0], d.function_name@, false) {
                        Some(t) => Some(t),
                        None => enum_target(m, d.arguments@[0], d.function_name@),
                    },
                )
            } else {
                Seq::empty()
            };
            own + list_refs(m, *vs.kind, scope, d.arguments.len() as int)
        },
        ExprKind::QualifiedPropertyCall(d) => {
            let own = if d.arguments.len() > 0 {
                one_ref(
                    si,
                    RefKind::QualifiedPropertyCall,
                    None,
                    prop_target(m, d.arguments@[0], d.function_name@, true),
                )
            } else {
                Seq::empty()
            };
            own + list_refs(m, *vs.kind, scope, d.arguments.len() as int)
        },
        ExprKind::Variable { name } => one_ref(si, RefKind::Variable, None, var_target(scope, name@)),
        ExprKind::PackageableElementRef { element } => one_ref(
            si,
            RefKind::TypeRef,
            Some(element),
            target_span(m, element),
        ),
        ExprKind::EnumValue { enum_element, .. } => one_ref(
            si,
            RefKind::EnumValue,
            Some(enum_element),
            target_span(m, enum_element),
        ),
        ExprKind::TypeReference { type_expr } => match type_expr {
            TypeExpr::Named { element, .. } => one_ref(
                si,
                RefKind::TypeRef,
                Some(element),
                target_span(m, element),
            ),
            _ => Seq::empty(),
        },
        ExprKind::Lambda { parameters, body } => list_refs(
            m,
            *vs.kind,
            scope.push(parameters@),
            body.len() as int,
        ),
        ExprKind::Collection { elements } => list_refs(m, *vs.kind, scope, elements.len() as int),
        _ => Seq::empty(),
    }
}

/// The reference sites of the first `n` sub-expressions of a node: call
/// arguments, lambda body expressions or collection elements.
pub open spec fn list_refs(m: PureModel, k: ExprKind, scope: Seq<Seq<Parameter>>, n: int) -> Seq<ReferenceView>
    decreases k, n,
{
    if n <= 0 {
        Seq::empty()
    } else {
        match k {
            ExprKind::FunctionCall(d) => if n > d.arguments.len() {
                Seq::empty()
            } else {
                list_refs(m, k, scope, n - 1) + refs_of(m, d.arguments[n - 1], scope)
            },
            ExprKind::PropertyCall(d) => if n > d.arguments.len() {
                Seq::empty()
            } else {
                list_refs(m, k, scope, n - 1) + refs_of(m, d.arguments[n - 1], scope)
            },
            ExprKind::QualifiedPropertyCall(d) => if n > d.arguments.len() {
                Seq::empty()
            } else {
                list_refs(m, k, scope, n - 1) + refs_of(m, d.arguments[n - 1], scope)
            },
            ExprKind::Lambda { body, .. } => if n > body.len() {
                Seq::empty()
            } else {
                list_refs(m, k, scope, n - 1) + refs_of(m, body[n - 1], scope)
            },
            ExprKind::Collection { elements } => if n > elements.len() {
                Seq::empty()
            } else {
                list_refs(m, k, scope, n - 1) + refs_of(m, elements[n - 1], scope)
            },
            _ => Seq::empty(),
        }
    }
}


/// Views of a stack of parameter lists.
pub open spec fn scope_view(s: Seq<&Vec<Parameter>>) -> Seq<Seq<Parameter>> {
    s.map_values(|p: &Vec<Parameter>| p@)
}

fn param_named<'p>(ps: &'p Vec<Parameter>, name: &String) -> (r: Option<&'p Parameter>)
    ensures
        match r {
            Some(p) => first_param(ps@, name@) == Some(*p),
            None => first_param(ps@, name@) is None,
        },
{
    let mut i: usize = 0;
    assert(ps@.skip(0) =~= ps@);
    while i < ps.len()
        invariant
            i <= ps.len(),
            first_param(ps@, name@) == first_param(ps@.skip(i as int), name@),
        decreases ps.len() - i,
    {
        assert(ps@.skip(i as int).drop_first() =~= ps@.skip(i + 1));
        assert(ps@.skip(i as int)[0] == ps@[i as int]);
        if str_eq(ps[i].name.as_str(), name.as_str()) {
            return Some(&ps[i]);
        }
        i = i + 1;
    }
    None
}

/// Where a variable leads (see [`var_target`]).
fn variable_target(scope: &Vec<&Vec<Parameter>>, name: &String) -> (r: Option<SourceInfo>)
    ensures
        match r {
            Some(x) => var_target(scope_view(scope@), name@) == Some(x@),
            None => var_target(scope_view(scope@), name@) is None,
        },
{
    let mut i: usize = scope.len();
    assert(scope_view(scope@).take(i as int) =~= scope_view(scope@));
    while i > 0
        invariant
            i <= scope.len(),
            var_target(scope_view(scope@), name@) == var_target(scope_view(scope@).take(i as int), name@),
        decreases i,
    {
        let ghost sv = scope_view(scope@).take(i as int);
        assert(sv.last() == scope@[i - 1]@);
        assert(sv.drop_last() =~= scope_view(scope@).take(i - 1));
        match param_named(scope[i - 1], name) {
            Some(p) => {
                return crate::types::dup_source(&p.source_info);
            },
            None => {},
        }
        i = i - 1;
    }
    None
}

/// The span of a call's function name (see [`call_name_span`]).
fn name_span(vs: &ValueSpec, args: &Vec<ValueSpec>, name: &String) -> (r: Option<SourceInfo>)
    ensures
        match r {
            Some(x) => call_name_span(*vs, args@, name@) == Some(x@),
            None => call_name_span(*vs, args@, name@) is None,
        },
{
    let outer = &vs.source_info;
    let nstr = name.as_str();
    let bl_usize = nstr.len();
    assert(nstr@ == name@);
    assert(bl_usize == (encode_utf8(name@).len() as usize));
    if bl_usize > 0xffff_ffffusize {
        return None;
    }
    let bl = bl_usize as u64;
    if args.len() > 0 && args[0].source_info.start_line == outer.start_line
        && args[0].source_info.start_column == outer.start_column {
        let a = &args[0].source_info;
        if a.end_line != outer.end_line {
            return None;
        }
        let start = a.end_column as u64 + 2;
        let end = start + bl;
        if end > 0xffff_ffffu64 {
            return None;
        }
        Some(
            SourceInfo {
                source: outer.source.clone(),
                start_line: a.end_line,
                start_column: start as u32,
                end_line: a.end_line,
                end_column: end as u32,
            },
        )
    } else {
        if outer.start_line != outer.end_line {
            return None;
        }
        let end = outer.start_column as u64 + bl;
        if end > 0xffff_ffffu64 {
            return None;
        }
        Some(
            SourceInfo {
                source: outer.source.clone(),
                start_line: outer.start_line,
                start_column: outer.start_column,
                end_line: outer.start_line,
                end_column: end as u32,
            },
        )
    }
}

/// `Enum.VALUE` written as a property access (see [`enum_target`]).
fn enum_value_span(model: &PureModel, receiver: &ValueSpec, name: &String) -> (r: Option<SourceInfo>)
    ensures
        match r {
            Some(x) => enum_target(*model, *receiver, name@) == Some(x@),
            None => enum_target(*model, *receiver, name@) is None,
        },
{
    match &*receiver.kind {
        ExprKind::PackageableElementRef { element } => match model.try_get_element(*element) {
            Some(Element::Enumeration(e)) => {
                assert(*receiver.kind == ExprKind::PackageableElementRef { element: *element });
                assert(model.valid_id(*element));
                assert(model.elem(*element) == Element::Enumeration(*e));
                let values = &e.values;
                let mut i: usize = 0;
                assert(values@.skip(0) =~= values@);
                assert(enum_target(*model, *receiver, name@) == first_value_span(values@, name@));
                while i < values.len()
                    invariant
                        i <= values.len(),
                        enum_target(*model, *receiver, name@) == first_value_span(values@, name@),
                        first_value_span(values@, name@) == first_value_span(values@.skip(i as int), name@),
                    decreases values.len() - i,
                {
                    assert(values@.skip(i as int).drop_first() =~= values@.skip(i + 1));
                    assert(values@.skip(i as int)[0] == values@[i as int]);
                    if str_eq(values[i].name.as_str(), name.as_str()) {
                        return Some(values[i].source_info.duplicate());
                    }
                    i = i + 1;
                }
                None
            },
            _ => None,
        },
        _ => None,
    }
}

/// A member access on a receiver of known class (see [`prop_target`]).
fn member_span_of(model: &PureModel, receiver: &ValueSpec, name: &String, qualified: bool) -> (r: Option<
    SourceInfo,
>)
    ensures
        match r {
            Some(x) => prop_target(*model, *receiver, name@, qualified) == Some(x@),
            None => prop_target(*model, *receiver, name@, qualified) is None,
        },
{
    match &receiver.type_info {
        Some(t) => match &t.type_expr {
            TypeExpr::Named { element, .. } => member_decl_span(model, *element, name, qualified),
            _ => None,
        },
        None => None,
    }
}

fn push_ref(
    out: &mut Vec<Reference>,
    range: SourceInfo,
    kind: RefKind,
    target_element: Option<ElementId>,
    target: Option<SourceInfo>,
)
    ensures
        refs_view(final(out)@) == refs_view(old(out)@) + one_ref(
            range@,
            kind,
            target_element,
            match target {
                Some(t) => Some(t@),
                None => None,
            },
        ),
{
    match target {
        Some(tg) => {
            let r = Reference { range, kind, target_element, target: tg };
            let ghost rv = r@;
            out.push(r);
            assert(refs_view(out@) =~= refs_view(old(out)@) + seq![rv]);
        },
        None => {
            assert(refs_view(out@) =~= refs_view(old(out)@) + Seq::<ReferenceView>::empty());
        },
    }
}

/// Appends the reference sites of an expression, with `scope` the
/// parameter lists in force, innermost last (see [`refs_of`]).
pub fn walk_value_spec_in_scope<'a>(
    model: &PureModel,
    vs: &'a ValueSpec,
    scope: &Vec<&'a Vec<Parameter>>,
    out: &mut Vec<Reference>,
)
    ensures
        refs_view(final(out)@) == refs_view(old(out)@) + refs_of(*model, *vs, scope_view(scope@)),
    decreases vs, 1int,
{
    let ghost o0 = refs_view(out@);
    let si = &vs.source_info;
    match &*vs.kind {
        ExprKind::FunctionCall(d) => {
            match d.function {
                Some(f) => {
                    let range = match name_span(vs, &d.arguments, &d.function_name) {
                        Some(r) => r,
                        None => si.duplicate(),
                    };
                    push_ref(out, range, RefKind::FunctionCall, Some(f), element_target_span(model, f));
                },
                None => {},
            }
            walk_items(model, &*vs.kind, scope, out);
        },
        ExprKind::PropertyCall(d) => {
            if d.arguments.len() > 0 {
                let t = match member_span_of(model, &d.arguments[0], &d.function_name, false) {
                    Some(t) => Some(t),
                    None => enum_value_span(model, &d.arguments[0], &d.function_name),
                };
                push_ref(out, si.duplicate(), RefKind::PropertyCall, None, t);
            }
            walk_items(model, &*vs.kind, scope, out);
        },
        ExprKind::QualifiedPropertyCall(d) => {
            if d.arguments.len() > 0 {
                let t = member_span_of(model, &d.arguments[0], &d.function_name, true);
                push_ref(out, si.duplicate(), RefKind::QualifiedPropertyCall, None, t);
            }
            walk_items(model, &*vs.kind, scope, out);
        },
        ExprKind::Variable { name } => {
            push_ref(out, si.duplicate(), RefKind::Variable, None, variable_target(scope, name));
        },
        ExprKind::PackageableElementRef { element } => {
            push_ref(out, si.duplicate(), RefKind::TypeRef, Some(*element), element_target_span(model, *element));
        },
        ExprKind::EnumValue { enum_element, .. } => {
            push_ref(
                out,
                si.duplicate(),
                RefKind::EnumValue,
                Some(*enum_element),
                element_target_span(model, *enum_element),
            );
        },
        ExprKind::TypeReference { type_expr } => {
            match type_expr {
                TypeExpr::Named { element, .. } => {
                    push_ref(
                        out,
                        si.duplicate(),
                        RefKind::TypeRef,
                        Some(*element),
                        element_target_span(model, *element),
                    );
                },
                _ => {
                    assert(refs_view(out@) =~= o0 + refs_of(*model, *vs, scope_view(scope@)));
                },
            }
        },
        ExprKind::Lambda { parameters, .. } => {
            let mut nested: Vec<&'a Vec<Parameter>> = Vec::new();
            let mut i: usize = 0;
            while i < scope.len()
                invariant
                    i <= scope.len(),
                    nested@ == scope@.take(i as int),
                decreases scope.len() - i,
            {
                nested.push(scope[i]);
                assert(scope@.take(i + 1) =~= scope@.take(i as int).push(scope@[i as int]));
                i = i + 1;
            }
            assert(scope@.take(i as int) =~= scope@);
            nested.push(parameters);
            assert(scope_view(nested@) =~= scope_view(scope@).push(parameters@));
            walk_items(model, &*vs.kind, &nested, out);
        },
        ExprKind::Collection { .. } => {
            walk_items(model, &*vs.kind, scope, out);
        },
        _ => {
            assert(refs_view(out@) =~= o0 + refs_of(*model, *vs, scope_view(scope@)));
        },
    }
}

/// The sub-expressions a node walks into: call arguments, lambda body
/// expressions, collection elements.
pub open spec fn items(k: ExprKind) -> Seq<ValueSpec> {
    match k {
        ExprKind::FunctionCall(d) => d.arguments@,
        ExprKind::PropertyCall(d) => d.arguments@,
        ExprKind::QualifiedPropertyCall(d) => d.arguments@,
        ExprKind::Lambda { body, .. } => body@,
        ExprKind::Collection { elements } => elements@,
        _ => Seq::empty(),
    }
}

/// Appends the reference sites of the sub-expressions of a node (see
/// [`list_refs`]).
fn walk_items<'a>(model: &PureModel, k: &'a ExprKind, scope: &Vec<&'a Vec<Parameter>>, out: &mut Vec<Reference>)
    ensures
        refs_view(final(out)@) == refs_view(old(out)@) + list_refs(
            *model,
            *k,
            scope_view(scope@),
            items(*k).len() as int,
        ),
    decreases k, 0int,
{
    let list: &'a Vec<ValueSpec> = match k {
        ExprKind::FunctionCall(d) => &d.arguments,
        ExprKind::PropertyCall(d) => &d.arguments,
        ExprKind::QualifiedPropertyCall(d) => &d.arguments,
        ExprKind::Lambda { body, .. } => body,
        ExprKind::Collection { elements } => elements,
        _ => {
            assert(refs_view(out@) =~= refs_view(old(out)@) + Seq::<ReferenceView>::empty());
            return;
        },
    };
    assert(list@ == items(*k));
    let ghost o0 = refs_view(out@);
    let mut i: usize = 0;
    while i < list.len()
        invariant
            i <= list.len(),
            list@ == items(*k),
            refs_view(out@) == o0 + list_refs(*model, *k, scope_view(scope@), i as int),
        decreases list.len() - i,
    {
        proof {
            vstd::std_specs::vec::axiom_vec_index_decreases(*list, i as int);
        }
        walk_value_spec_in_scope(model, &list[i], scope, out);
        assert(refs_view(out@) =~= o0 + list_refs(*model, *k, scope_view(scope@), i + 1));
        i = i + 1;
    }
}


// ---------------------------------------------------------------------------
// Reference sites of elements
// ---------------------------------------------------------------------------

/// Where a tagged value leads: the tag's declaration in its profile when
/// it has one of its own, else the profile itself.
pub open spec fn tag_target(m: PureModel, tv: TaggedValueRef) -> Option<SourceInfoView> {
    let own = match m.elem(tv.profile) {
        Element::Profile(p) => decl_span(p.tags@, tv.tag@),
        _ => None,
    };
    match own {
        Some(d) => Some(d),
        None => target_span(m, tv.profile),
    }
}

/// The references of the first `n` tagged values with a recorded span
/// whose profile is an element of the model.
pub open spec fn tag_refs(m: PureModel, s: Seq<TaggedValueRef>, n: int) -> Seq<ReferenceView>
    decreases n,
{
    if n <= 0 || n > s.len() {
        Seq::empty()
    } else {
        let tv = s[n - 1];
        tag_refs(m, s, n - 1) + match tv.source_info {
            Some(range) => if m.valid_id(tv.profile) {
                one_ref(range@, RefKind::TaggedValueRef, Some(tv.profile), tag_target(m, tv))
            } else {
                Seq::empty()
            },
            None => Seq::empty(),
        }
    }
}

/// Appends the references of tagged values (see [`tag_refs`]).
pub fn walk_tagged_values(model: &PureModel, tagged_values: &[TaggedValueRef], out: &mut Vec<Reference>)
    ensures
        refs_view(final(out)@) == refs_view(old(out)@) + tag_refs(
            *model,
            tagged_values@,
            tagged_values@.len() as int,
        ),
{
    let ghost o0 = refs_view(out@);
    let mut i: usize = 0;
    while i < tagged_values.len()
        invariant
            i <= tagged_values.len(),
            refs_view(out@) == o0 + tag_refs(*model, tagged_values@, i as int),
        decreases tagged_values.len() - i,
    {
        let tv = &tagged_values[i];
        match &tv.source_info {
            Some(range) => match model.try_get_element(tv.profile) {
                Some(element) => {
                    let own = match element {
                        Element::Profile(p) => find_decl_span(&p.tags, &tv.tag),
                        _ => None,
                    };
                    let target = match own {
                        Some(d) => Some(d),
                        None => element_target_span(model, tv.profile),
                    };
                    push_ref(out, range.duplicate(), RefKind::TaggedValueRef, Some(tv.profile), target);
                },
                None => {},
            },
            None => {},
        }
        assert(refs_view(out@) =~= o0 + tag_refs(*model, tagged_values@, i + 1));
        i = i + 1;
    }
}

/// Type references of the first `n` types.
pub open spec fn types_refs(m: PureModel, s: Seq<TypeExpr>, n: int) -> Seq<ReferenceView>
    decreases n,
{
    if n <= 0 || n > s.len() {
        Seq::empty()
    } else {
        types_refs(m, s, n - 1) + type_refs(m, s[n - 1])
    }
}

/// Type references of the types of the first `n` parameters.
pub open spec fn params_refs(m: PureModel, s: Seq<Parameter>, n: int) -> Seq<ReferenceView>
    decreases n,
{
    if n <= 0 || n > s.len() {
        Seq::empty()
    } else {
        params_refs(m, s, n - 1) + type_refs(m, s[n - 1].type_expr)
    }
}

/// Reference sites of the first `n` expressions of a body.
pub open spec fn body_refs(m: PureModel, s: Seq<ValueSpec>, scope: Seq<Seq<Parameter>>, n: int) -> Seq<
    ReferenceView,
>
    decreases n,
{
    if n <= 0 || n > s.len() {
        Seq::empty()
    } else {
        body_refs(m, s, scope, n - 1) + refs_of(m, s[n - 1], scope)
    }
}

/// Reference sites of a property: its annotations, its type and, when
/// `with_default`, its default value.
pub open spec fn property_refs(m: PureModel, p: Property, with_default: bool) -> Seq<ReferenceView> {
    stereo_refs(m, p.stereotypes@, p.stereotypes.len() as int) + tag_refs(
        m,
        p.tagged_values@,
        p.tagged_values.len() as int,
    ) + type_refs(m, p.type_expr) + if with_default {
        match p.default_value {
            Some(dv) => refs_of(m, dv, Seq::empty()),
            None => Seq::empty(),
        }
    } else {
        Seq::empty()
    }
}

/// Reference sites of a qualified property: its annotations, parameter
/// and return types, and body (its parameters in scope).
pub open spec fn qualified_refs(m: PureModel, q: QualifiedProperty) -> Seq<ReferenceView> {
    stereo_refs(m, q.stereotypes@, q.stereotypes.len() as int) + tag_refs(
        m,
        q.tagged_values@,
        q.tagged_values.len() as int,
    ) + params_refs(m, q.parameters@, q.parameters.len() as int) + type_refs(m, q.return_type)
        + body_refs(m, q.body@, seq![q.parameters@], q.body.len() as int)
}

/// Reference sites of the first `n` properties.
pub open spec fn properties_refs(m: PureModel, s: Seq<Property>, with_default: bool, n: int) -> Seq<
    ReferenceView,
>
    decreases n,
{
    if n <= 0 || n > s.len() {
        Seq::empty()
    } else {
        properties_refs(m, s, with_default, n - 1) + property_refs(m, s[n - 1], with_default)
    }
}

/// Reference sites of the first `n` qualified properties.
pub open spec fn qualifieds_refs(m: PureModel, s: Seq<QualifiedProperty>, n: int) -> Seq<ReferenceView>
    decreases n,
{
    if n <= 0 || n > s.len() {
        Seq::empty()
    } else {
        qualifieds_refs(m, s, n - 1) + qualified_refs(m, s[n - 1])
    }
}

/// Reference sites of the first `n` constraints: each one's function,
/// then its message.
pub open spec fn constraints_refs(m: PureModel, s: Seq<Constraint>, n: int) -> Seq<ReferenceView>
    decreases n,
{
    if n <= 0 || n > s.len() {
        Seq::empty()
    } else {
        let c = s[n - 1];
        constraints_refs(m, s, n - 1) + refs_of(m, c.function, Seq::empty()) + match c.message {
            Some(msg) => refs_of(m, msg, Seq::empty()),
            None => Seq::empty(),
        }
    }
}

/// The reference sites of an element, in order.
pub open spec fn element_refs(m: PureModel, e: Element) -> Seq<ReferenceView> {
    match e {
        Element::Function(f) => stereo_refs(m, f.stereotypes@, f.stereotypes.len() as int) + tag_refs(
            m,
            f.tagged_values@,
            f.tagged_values.len() as int,
        ) + params_refs(m, f.parameters@, f.parameters.len() as int) + type_refs(m, f.return_type)
            + body_refs(m, f.body@, seq![f.parameters@], f.body.len() as int),
        Element::Class(c) => stereo_refs(m, c.stereotypes@, c.stereotypes.len() as int) + tag_refs(
            m,
            c.tagged_values@,
            c.tagged_values.len() as int,
        ) + types_refs(m, c.super_types@, c.super_types.len() as int) + properties_refs(
            m,
            c.properties@,
            true,
            c.properties.len() as int,
        ) + qualifieds_refs(m, c.qualified_properties@, c.qualified_properties.len() as int)
            + constraints_refs(m, c.constraints@, c.constraints.len() as int),
        Element::Association(a) => stereo_refs(m, a.stereotypes@, a.stereotypes.len() as int) + tag_refs(
            m,
            a.tagged_values@,
            a.tagged_values.len() as int,
        ) + properties_refs(m, a.properties@, false, a.properties.len() as int) + qualifieds_refs(
            m,
            a.qualified_properties@,
            a.qualified_properties.len() as int,
        ),
        Element::Enumeration(e) => stereo_refs(m, e.stereotypes@, e.stereotypes.len() as int) + tag_refs(
            m,
            e.tagged_values@,
            e.tagged_values.len() as int,
        ),
        _ => Seq::empty(),
    }
}

fn walk_types(model: &PureModel, s: &Vec<TypeExpr>, out: &mut Vec<Reference>)
    ensures
        refs_view(final(out)@) == refs_view(old(out)@) + types_refs(*model, s@, s@.len() as int),
{
    let ghost o0 = refs_view(out@);
    let mut i: usize = 0;
    while i < s.len()
        invariant
            i <= s.len(),
            refs_view(out@) == o0 + types_refs(*model, s@, i as int),
        decreases s.len() - i,
    {
        walk_type_expr(model, &s[i], out);
        assert(refs_view(out@) =~= o0 + types_refs(*model, s@, i + 1));
        i = i + 1;
    }
}

fn walk_params(model: &PureModel, s: &Vec<Parameter>, out: &mut Vec<Reference>)
    ensures
        refs_view(final(out)@) == refs_view(old(out)@) + params_refs(*model, s@, s@.len() as int),
{
    let ghost o0 = refs_view(out@);
    let mut i: usize = 0;
    while i < s.len()
        invariant
            i <= s.len(),
            refs_view(out@) == o0 + params_refs(*model, s@, i as int),
        decreases s.len() - i,
    {
        walk_type_expr(model, &s[i].type_expr, out);
        assert(refs_view(out@) =~= o0 + params_refs(*model, s@, i + 1));
        i = i + 1;
    }
}

fn walk_body<'a>(model: &PureModel, s: &'a Vec<ValueSpec>, scope: &Vec<&'a Vec<Parameter>>, out: &mut Vec<Reference>)
    ensures
        refs_view(final(out)@) == refs_view(old(out)@) + body_refs(
            *model,
            s@,
            scope_view(scope@),
            s@.len() as int,
        ),
{
    let ghost o0 = refs_view(out@);
    let mut i: usize = 0;
    while i < s.len()
        invariant
            i <= s.len(),
            refs_view(out@) == o0 + body_refs(*model, s@, scope_view(scope@), i as int),
        decreases s.len() - i,
    {
        walk_value_spec_in_scope(model, &s[i], scope, out);
        assert(refs_view(out@) =~= o0 + body_refs(*model, s@, scope_view(scope@), i + 1));
        i = i + 1;
    }
}

/// Walks a body with `params` as the only scope.
fn walk_scoped_body(model: &PureModel, params: &Vec<Parameter>, body: &Vec<ValueSpec>, out: &mut Vec<Reference>)
    ensures
        refs_view(final(out)@) == refs_view(old(out)@) + body_refs(
            *model,
            body@,
            seq![params@],
            body@.len() as int,
        ),
{
    let mut scope: Vec<&Vec<Parameter>> = Vec::new();
    scope.push(params);
    assert(scope_view(scope@) =~= seq![params@]);
    walk_body(model, body, &scope, out);
}

fn walk_unscoped(model: &PureModel, vs: &ValueSpec, out: &mut Vec<Reference>)
    ensures
        refs_view(final(out)@) == refs_view(old(out)@) + refs_of(*model, *vs, Seq::empty()),
{
    let scope: Vec<&Vec<Parameter>> = Vec::new();
    assert(scope_view(scope@) =~= Seq::<Seq<Parameter>>::empty());
    walk_value_spec_in_scope(model, vs, &scope, out);
}

fn walk_property(model: &PureModel, p: &Property, with_default: bool, out: &mut Vec<Reference>)
    ensures
        refs_view(final(out)@) == refs_view(old(out)@) + property_refs(*model, *p, with_default),
{
    let ghost o0 = refs_view(out@);
    walk_stereotypes(model, p.stereotypes.as_slice(), out);
    walk_tagged_values(model, p.tagged_values.as_slice(), out);
    walk_type_expr(model, &p.type_expr, out);
    let ghost o1 = refs_view(out@);
    if with_default {
        match &p.default_value {
            Some(dv) => {
                walk_unscoped(model, dv, out);
            },
            None => {},
        }
    }
    assert(refs_view(out@) =~= o0 + property_refs(*model, *p, with_default));
}

fn walk_qualified(model: &PureModel, q: &QualifiedProperty, out: &mut Vec<Reference>)
    ensures
        refs_view(final(out)@) == refs_view(old(out)@) + qualified_refs(*model, *q),
{
    let ghost o0 = refs_view(out@);
    walk_stereotypes(model, q.stereotypes.as_slice(), out);
    walk_tagged_values(model, q.tagged_values.as_slice(), out);
    walk_params(model, &q.parameters, out);
    walk_type_expr(model, &q.return_type, out);
    walk_scoped_body(model, &q.parameters, &q.body, out);
    assert(refs_view(out@) =~= o0 + qualified_refs(*model, *q));
}

fn walk_properties(model: &PureModel, s: &Vec<Property>, with_default: bool, out: &mut Vec<Reference>)
    ensures
        refs_view(final(out)@) == refs_view(old(out)@) + properties_refs(*model, s@, with_default, s@.len() as int),
{
    let ghost o0 = refs_view(out@);
    let mut i: usize = 0;
    while i < s.len()
        invariant
            i <= s.len(),
            refs_view(out@) == o0 + properties_refs(*model, s@, with_default, i as int),
        decreases s.len() - i,
    {
        walk_property(model, &s[i], with_default, out);
        assert(refs_view(out@) =~= o0 + properties_refs(*model, s@, with_default, i + 1));
        i = i + 1;
    }
}

fn walk_qualifieds(model: &PureModel, s: &Vec<QualifiedProperty>, out: &mut Vec<Reference>)
    ensures
        refs_view(final(out)@) == refs_view(old(out)@) + qualifieds_refs(*model, s@, s@.len() as int),
{
    let ghost o0 = refs_view(out@);
    let mut i: usize = 0;
    while i < s.len()
        invariant
            i <= s.len(),
            refs_view(out@) == o0 + qualifieds_refs(*model, s@, i as int),
        decreases s.len() - i,
    {
        walk_qualified(model, &s[i], out);
        assert(refs_view(out@) =~= o0 + qualifieds_refs(*model, s@, i + 1));
        i = i + 1;
    }
}

fn walk_constraints(model: &PureModel, s: &Vec<Constraint>, out: &mut Vec<Reference>)
    ensures
        refs_view(final(out)@) == refs_view(old(out)@) + constraints_refs(*model, s@, s@.len() as int),
{
    let ghost o0 = refs_view(out@);
    let mut i: usize = 0;
    while i < s.len()
        invariant
            i <= s.len(),
            refs_view(out@) == o0 + constraints_refs(*model, s@, i as int),
        decreases s.len() - i,
    {
        walk_unscoped(model, &s[i].function, out);
        match &s[i].message {
            Some(msg) => {
                walk_unscoped(model, msg, out);
            },
            None => {},
        }
        assert(refs_view(out@) =~= o0 + constraints_refs(*model, s@, i + 1));
        i = i + 1;
    }
}

/// Appends the reference sites of an element (see [`element_refs`]).
pub fn walk_element_references(model: &PureModel, element: &Element, out: &mut Vec<Reference>)
    ensures
        refs_view(final(out)@) == refs_view(old(out)@) + element_refs(*model, *element),
{
    let ghost o0 = refs_view(out@);
    match element {
        Element::Function(f) => {
            walk_stereotypes(model, f.stereotypes.as_slice(), out);
            walk_tagged_values(model, f.tagged_values.as_slice(), out);
            walk_params(model, &f.parameters, out);
            walk_type_expr(model, &f.return_type, out);
            walk_scoped_body(model, &f.parameters, &f.body, out);
        },
        Element::Class(c) => {
            walk_stereotypes(model, c.stereotypes.as_slice(), out);
            walk_tagged_values(model, c.tagged_values.as_slice(), out);
            walk_types(model, &c.super_types, out);
            walk_properties(model, &c.properties, true, out);
            walk_qualifieds(model, &c.qualified_properties, out);
            walk_constraints(model, &c.constraints, out);
        },
        Element::Association(a) => {
            walk_stereotypes(model, a.stereotypes.as_slice(), out);
            walk_tagged_values(model, a.tagged_values.as_slice(), out);
            walk_properties(model, &a.properties, false, out);
            walk_qualifieds(model, &a.qualified_properties, out);
        },
        Element::Enumeration(e) => {
            walk_stereotypes(model, e.stereotypes.as_slice(), out);
            walk_tagged_values(model, e.tagged_values.as_slice(), out);
        },
        _ => {},
    }
    assert(refs_view(out@) =~= o0 + element_refs(*model, *element));
}


// ---------------------------------------------------------------------------
// The whole model, and the index
// ---------------------------------------------------------------------------

/// Reference sites of the first `n` elements of chunk `c` (every slot with
/// a node, in slot order).
pub open spec fn chunk_refs(m: PureModel, c: int, n: int) -> Seq<ReferenceView>
    decreases n,
{
    if n <= 0 || n > m.chunks@[c].nodes.items.len() {
        Seq::empty()
    } else {
        chunk_refs(m, c, n - 1) + if n - 1 < m.chunks@[c].elements.items.len() {
            element_refs(m, m.chunks@[c].elements.items@[n - 1])
        } else {
            Seq::empty()
        }
    }
}

/// Reference sites of the first `c` chunks.
pub open spec fn chunks_refs(m: PureModel, c: int) -> Seq<ReferenceView>
    decreases c,
{
    if c <= 0 || c > m.chunks.len() {
        Seq::empty()
    } else {
        chunks_refs(m, c - 1) + chunk_refs(m, c - 1, m.chunks@[c - 1].nodes.items.len() as int)
    }
}

/// Every reference site of the model, chunk by chunk, element by element.
pub open spec fn model_refs(m: PureModel) -> Seq<ReferenceView> {
    chunks_refs(m, m.chunks.len() as int)
}

/// Appends every reference site of the model (see [`model_refs`]).
pub fn walk_references(model: &PureModel, out: &mut Vec<Reference>)
    ensures
        refs_view(final(out)@) == refs_view(old(out)@) + model_refs(*model),
{
    let ghost o0 = refs_view(out@);
    let mut c: usize = 0;
    while c < model.chunks.len()
        invariant
            c <= model.chunks.len(),
            refs_view(out@) == o0 + chunks_refs(*model, c as int),
        decreases model.chunks.len() - c,
    {
        let chunk = &model.chunks[c];
        let ghost o1 = refs_view(out@);
        let mut i: usize = 0;
        while i < chunk.nodes.items.len()
            invariant
                i <= chunk.nodes.items.len(),
                c < model.chunks.len(),
                *chunk == model.chunks@[c as int],
                refs_view(out@) == o1 + chunk_refs(*model, c as int, i as int),
            decreases chunk.nodes.items.len() - i,
        {
            if i < chunk.elements.items.len() {
                walk_element_references(model, &chunk.elements.items[i], out);
            }
            assert(refs_view(out@) =~= o1 + chunk_refs(*model, c as int, i + 1));
            i = i + 1;
        }
        assert(refs_view(out@) =~= o0 + chunks_refs(*model, c + 1));
        c = c + 1;
    }
}

/// `a` starts after `b` (by line, then column).
pub open spec fn starts_after(a: ReferenceView, b: ReferenceView) -> bool {
    a.range.start_line > b.range.start_line || (a.range.start_line == b.range.start_line
        && a.range.start_column > b.range.start_column)
}

/// `x` inserted into `s` after every entry that does not start after it.
pub open spec fn ins(s: Seq<ReferenceView>, x: ReferenceView) -> Seq<ReferenceView>
    decreases s.len(),
{
    if s.len() == 0 {
        seq![x]
    } else if starts_after(s.last(), x) {
        ins(s.drop_last(), x).push(s.last())
    } else {
        s.push(x)
    }
}

/// `s` sorted by start position, references starting at the same place
/// kept in their order.
pub open spec fn sort_by_start(s: Seq<ReferenceView>) -> Seq<ReferenceView>
    decreases s.len(),
{
    if s.len() == 0 {
        Seq::empty()
    } else {
        ins(sort_by_start(s.drop_last()), s.last())
    }
}

proof fn lemma_ins_at(s: Seq<ReferenceView>, x: ReferenceView, j: int)
    requires
        0 <= j <= s.len(),
        forall|k: int| j <= k < s.len() ==> starts_after(#[trigger] s[k], x),
        j > 0 ==> !starts_after(s[j - 1], x),
    ensures
        ins(s, x) == s.take(j).push(x) + s.skip(j),
    decreases s.len(),
{
    if s.len() == 0 {
        assert(s.take(j).push(x) + s.skip(j) =~= seq![x]);
    } else if starts_after(s.last(), x) {
        assert(j < s.len());
        let d = s.drop_last();
        assert forall|k: int| j <= k < d.len() implies starts_after(#[trigger] d[k], x) by {
            assert(d[k] == s[k]);
        }
        if j > 0 {
            assert(d[j - 1] == s[j - 1]);
        }
        lemma_ins_at(d, x, j);
        assert(ins(s, x) == ins(d, x).push(s.last()));
        assert(d.take(j).push(x) + d.skip(j) + seq![s.last()] =~= s.take(j).push(x) + s.skip(j));
        assert(ins(d, x).push(s.last()) =~= ins(d, x) + seq![s.last()]);
    } else {
        if j < s.len() {
            assert(starts_after(s[s.len() - 1], x));
        }
        assert(j == s.len());
        assert(s.take(j).push(x) + s.skip(j) =~= s.push(x));
    }
}

/// Inserts `x` into a list kept in start order (see [`ins`]).
fn insert_by_start(out: &mut Vec<Reference>, x: Reference)
    ensures
        refs_view(final(out)@) == ins(refs_view(old(out)@), x@),
{
    let ghost s = refs_view(out@);
    let ghost xv = x@;
    let mut j: usize = out.len();
    while j > 0 && (out[j - 1].range.start_line > x.range.start_line || (out[j - 1].range.start_line
        == x.range.start_line && out[j - 1].range.start_column > x.range.start_column))
        invariant
            j <= out.len(),
            s == refs_view(out@),
            xv == x@,
            forall|k: int| j <= k < s.len() ==> starts_after(#[trigger] s[k], xv),
        decreases j,
    {
        assert(s[j - 1] == out@[j - 1]@);
        j = j - 1;
    }
    proof {
        if j > 0 {
            assert(s[j - 1] == out@[j - 1]@);
        }
        lemma_ins_at(s, xv, j as int);
    }
    let ghost before = out@;
    out.insert(j, x);
    assert(out@ =~= before.take(j as int).push(x) + before.skip(j as int));
    assert(refs_view(out@) =~= s.take(j as int).push(xv) + s.skip(j as int));
}

/// The references sorted by start position (see [`sort_by_start`]).
fn sort_refs(v: Vec<Reference>) -> (r: Vec<Reference>)
    ensures
        refs_view(r@) == sort_by_start(refs_view(v@)),
{
    let ghost sv = refs_view(v@);
    let mut src = v;
    let mut out: Vec<Reference> = Vec::new();
    let ghost mut done: int = 0;
    while src.len() > 0
        invariant
            0 <= done <= sv.len(),
            refs_view(src@) == sv.skip(done),
            refs_view(out@) == sort_by_start(sv.take(done)),
        decreases src.len(),
    {
        assert(refs_view(src@).len() > 0);
        assert(done < sv.len());
        let ghost src0 = src@;
        let x = src.remove(0);
        assert(src@ =~= src0.drop_first());
        assert(refs_view(src0.drop_first()) =~= refs_view(src0).drop_first());
        assert(sv.skip(done).drop_first() =~= sv.skip(done + 1));
        proof {
            assert(sv.skip(done)[0] == x@);
            assert(sv.take(done + 1).drop_last() =~= sv.take(done));
            assert(sv.take(done + 1).last() == sv[done]);
            assert(refs_view(src@) =~= sv.skip(done + 1));
        }
        insert_by_start(&mut out, x);
        proof {
            done = done + 1;
        }
    }
    assert(sv.take(done) =~= sv);
    out
}

/// The references of `s` recorded in file `p`, in order.
pub open spec fn in_file(s: Seq<ReferenceView>, p: Seq<char>) -> Seq<ReferenceView>
    decreases s.len(),
{
    if s.len() == 0 {
        Seq::empty()
    } else {
        in_file(s.drop_last(), p) + if s.last().range.source == p {
            seq![s.last()]
        } else {
            Seq::empty()
        }
    }
}

/// The usage sites `s` records for target `t`, in order.
pub open spec fn usages_in(s: Seq<ReferenceView>, t: ElementId) -> Seq<RefLocationView>
    decreases s.len(),
{
    if s.len() == 0 {
        Seq::empty()
    } else {
        usages_in(s.drop_last(), t) + if s.last().target_element == Some(t) {
            seq![location_of(s.last())]
        } else {
            Seq::empty()
        }
    }
}

proof fn lemma_file_refs_sorted(a: Seq<(String, Vec<Reference>)>, b: Seq<(String, Vec<Reference>)>, p: Seq<char>)
    requires
        a.len() == b.len(),
        forall|i: int| 0 <= i < a.len() ==> #[trigger] b[i].0@ == a[i].0@ && refs_view(b[i].1@)
            == sort_by_start(refs_view(a[i].1@)),
    ensures
        file_refs(b, p) == if has_file(a, p) {
            sort_by_start(file_refs(a, p))
        } else {
            file_refs(b, p)
        },
        !has_file(a, p) ==> file_refs(b, p).len() == 0 && file_refs(a, p).len() == 0,
    decreases a.len(),
{
    if a.len() > 0 {
        assert(b[0].0@ == a[0].0@);
        assert forall|i: int| 0 <= i < a.drop_first().len() implies #[trigger] b.drop_first()[i].0@
            == a.drop_first()[i].0@ && refs_view(b.drop_first()[i].1@) == sort_by_start(
            refs_view(a.drop_first()[i].1@),
        ) by {
            assert(a.drop_first()[i] == a[i + 1]);
            assert(b.drop_first()[i] == b[i + 1]);
        }
        lemma_file_refs_sorted(a.drop_first(), b.drop_first(), p);
        if a[0].0@ != p {
            if has_file(a, p) {
                let k = choose|k: int| 0 <= k < a.len() && #[trigger] a[k].0@ == p;
                assert(a.drop_first()[k - 1] == a[k]);
            }
            if has_file(a.drop_first(), p) {
                let k = choose|k: int| 0 <= k < a.drop_first().len() && #[trigger] a.drop_first()[k].0@ == p;
                assert(a[k + 1] == a.drop_first()[k]);
            }
        } else {
            assert(has_file(a, p)) by {
                assert(a[0].0@ == p);
            }
        }
    }
}

/// Some entry is for file `p`.
pub open spec fn has_file(files: Seq<(String, Vec<Reference>)>, p: Seq<char>) -> bool {
    exists|k: int| 0 <= k < files.len() && #[trigger] files[k].0@ == p
}

impl ReferenceIndex {
    /// Sorts the references of each file by start position (references
    /// starting at the same place keep their order).
    pub fn finalize(&mut self)
        ensures
            final(self).by_target@ == old(self).by_target@,
            forall|p: Seq<char>|
                #[trigger] file_refs(final(self).by_file@, p) == sort_by_start(file_refs(old(self).by_file@, p)),
    {
        let ghost a = self.by_file@;
        let mut files: Vec<(String, Vec<Reference>)> = Vec::new();
        std::mem::swap(&mut files, &mut self.by_file);
        assert(files@ == a);
        let mut sorted: Vec<(String, Vec<Reference>)> = Vec::new();
        let ghost mut k: int = 0;
        while files.len() > 0
            invariant
                0 <= k <= a.len(),
                files@ == a.skip(k),
                sorted@.len() == k,
                forall|i: int| 0 <= i < k ==> #[trigger] sorted@[i].0@ == a[i].0@ && refs_view(sorted@[i].1@)
                    == sort_by_start(refs_view(a[i].1@)),
            decreases files.len(),
        {
            let entry = files.remove(0);
            proof {
                assert(a.skip(k)[0] == entry);
                assert(a.skip(k)[0] == a[k]);
                assert(files@ =~= a.skip(k + 1));
            }
            let ghost ev = entry;
            let name = entry.0;
            let list = sort_refs(entry.1);
            let ghost before = sorted@;
            assert(forall|i: int| 0 <= i < k ==> #[trigger] before[i].0@ == a[i].0@ && refs_view(before[i].1@)
                == sort_by_start(refs_view(a[i].1@)));
            sorted.push((name, list));
            proof {
                assert(sorted@[k].0@ == a[k].0@);
                assert(refs_view(sorted@[k].1@) == sort_by_start(refs_view(a[k].1@)));
                k = k + 1;
                assert forall|i: int| 0 <= i < k implies #[trigger] sorted@[i].0@ == a[i].0@ && refs_view(
                    sorted@[i].1@,
                ) == sort_by_start(refs_view(a[i].1@)) by {
                    if i < k - 1 {
                        assert(sorted@[i] == before[i]);
                    }
                }
            }
        }
        self.by_file = sorted;
        proof {
            assert forall|p: Seq<char>| #[trigger] file_refs(self.by_file@, p) == sort_by_start(
                file_refs(a, p),
            ) by {
                lemma_file_refs_sorted(a, self.by_file@, p);
                if !has_file(a, p) {
                    assert(file_refs(a, p) =~= Seq::<ReferenceView>::empty());
                    assert(sort_by_start(Seq::<ReferenceView>::empty()) =~= Seq::<ReferenceView>::empty());
                    assert(file_refs(self.by_file@, p) =~= Seq::<ReferenceView>::empty());
                }
            }
        }
    }
}


/// The reference index of a model: every reference site (see
/// [`model_refs`]) listed under its file, sorted by start position, and
/// under its target element, in walking order.
pub fn build_reference_index(model: &PureModel) -> (r: ReferenceIndex)
    ensures
        forall|p: Seq<char>|
            #[trigger] file_refs(r.by_file@, p) == sort_by_start(in_file(model_refs(*model), p)),
        forall|t: ElementId|
            #[trigger] locs_view(lookup(r.by_target@, t)) == usages_in(model_refs(*model), t),
        forall|t: ElementId| #[trigger] has_key(r.by_target@, t) <==> usages_in(model_refs(*model), t).len() > 0,
{
    let mut all: Vec<Reference> = Vec::new();
    walk_references(model, &mut all);
    assert(refs_view(all@) =~= model_refs(*model));
    let ghost sv = refs_view(all@);
    let mut index = ReferenceIndex::new();
    let ghost mut done: int = 0;
    proof {
        assert forall|p: Seq<char>| #[trigger] file_refs(index.by_file@, p) == in_file(sv.take(0), p) by {
            assert(sv.take(0) =~= Seq::<ReferenceView>::empty());
        }
        assert forall|t: ElementId| #[trigger] locs_view(lookup(index.by_target@, t)) == usages_in(sv.take(0), t) by {
            assert(sv.take(0) =~= Seq::<ReferenceView>::empty());
            assert(locs_view(lookup(index.by_target@, t)) =~= Seq::<RefLocationView>::empty());
        }
        assert forall|t: ElementId| #[trigger] has_key(index.by_target@, t) <==> usages_in(sv.take(0), t).len() > 0 by {
            assert(sv.take(0) =~= Seq::<ReferenceView>::empty());
        }
    }
    while all.len() > 0
        invariant
            0 <= done <= sv.len(),
            refs_view(all@) == sv.skip(done),
            forall|p: Seq<char>| #[trigger] file_refs(index.by_file@, p) == in_file(sv.take(done), p),
            forall|t: ElementId| #[trigger] locs_view(lookup(index.by_target@, t)) == usages_in(sv.take(done), t),
            forall|t: ElementId| #[trigger] has_key(index.by_target@, t) <==> usages_in(sv.take(done), t).len() > 0,
        decreases all.len(),
    {
        assert(refs_view(all@).len() > 0);
        let ghost a0 = all@;
        let x = all.remove(0);
        proof {
            assert(all@ =~= a0.drop_first());
            assert(refs_view(a0.drop_first()) =~= refs_view(a0).drop_first());
            assert(sv.skip(done).drop_first() =~= sv.skip(done + 1));
            assert(sv.skip(done)[0] == x@);
            assert(sv.take(done + 1).drop_last() =~= sv.take(done));
            assert(sv.take(done + 1).last() == x@);
        }
        index.push(x);
        proof {
            done = done + 1;
            assert forall|p: Seq<char>| #[trigger] file_refs(index.by_file@, p) == in_file(sv.take(done), p) by {
                assert(in_file(sv.take(done), p) == in_file(sv.take(done - 1), p) + if sv[done - 1].range.source
                    == p {
                    seq![sv[done - 1]]
                } else {
                    Seq::empty()
                });
                if sv[done - 1].range.source == p {
                    assert(in_file(sv.take(done - 1), p).push(sv[done - 1]) =~= in_file(sv.take(done - 1), p)
                        + seq![sv[done - 1]]);
                } else {
                    assert(in_file(sv.take(done - 1), p) + Seq::<ReferenceView>::empty() =~= in_file(
                        sv.take(done - 1),
                        p,
                    ));
                }
            }
            assert forall|t: ElementId| #[trigger] locs_view(lookup(index.by_target@, t)) == usages_in(
                sv.take(done),
                t,
            ) by {
                assert(usages_in(sv.take(done), t) == usages_in(sv.take(done - 1), t) + if sv[done - 1].target_element
                    == Some(t) {
                    seq![location_of(sv[done - 1])]
                } else {
                    Seq::empty()
                });
                if sv[done - 1].target_element == Some(t) {
                    assert(usages_in(sv.take(done - 1), t).push(location_of(sv[done - 1])) =~= usages_in(
                        sv.take(done - 1),
                        t,
                    ) + seq![location_of(sv[done - 1])]);
                } else {
                    assert(usages_in(sv.take(done - 1), t) + Seq::<RefLocationView>::empty() =~= usages_in(
                        sv.take(done - 1),
                        t,
                    ));
                }
            }
            assert forall|t: ElementId| #[trigger] has_key(index.by_target@, t) <==> usages_in(sv.take(done), t).len()
                > 0 by {
                assert(usages_in(sv.take(done), t) == usages_in(sv.take(done - 1), t) + if sv[done - 1].target_element
                    == Some(t) {
                    seq![location_of(sv[done - 1])]
                } else {
                    Seq::empty()
                });
            }
        }
    }
    assert(sv.take(done) =~= sv);
    index.finalize();
    index
}

} // verus!

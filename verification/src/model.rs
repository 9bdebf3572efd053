//! The compiled model: a global package tree, chunked element storage
//! (parallel node / payload arenas, chunk 0 being the bootstrap chunk),
//! and derived reverse indexes.

use vstd::prelude::*;

use crate::ids::{ElementId, PackageId};
use crate::nodes::{Association, Class, Enumeration, Function, Measure, PrimitiveType, Profile, Unit};
use crate::resolve::{lemma_named_ids_step, named_ids};
use crate::types::{SourceInfo, TypeExpr};

verus! {

/// An append-only arena addressed by `u32` indices.
#[derive(Debug)]
pub struct Arena<T> {
    pub items: Vec<T>,
}

impl<T> Arena<T> {
    /// An empty arena.
    pub fn new() -> (r: Self)
        ensures
            r.items@.len() == 0,
    {
        Arena { items: Vec::new() }
    }

    /// Appends `item` and returns its index.
    pub fn allocate(&mut self, item: T) -> (idx: u32)
        requires
            old(self).items.len() < u32::MAX,
        ensures
            final(self).items@ == old(self).items@.push(item),
            idx as int == old(self).items.len(),
    {
        let idx = self.items.len() as u32;
        self.items.push(item);
        idx
    }

    /// The item at `idx`.
    pub fn get(&self, idx: u32) -> (r: &T)
        requires
            (idx as int) < self.items.len(),
        ensures
            *r == self.items@[idx as int],
    {
        &self.items[idx as usize]
    }

    /// Number of items.
    pub fn len(&self) -> (r: u32)
        requires
            self.items.len() <= u32::MAX,
        ensures
            r as int == self.items.len(),
    {
        self.items.len() as u32
    }
}

/// Metadata shared by every element.
#[derive(Debug)]
pub struct ElementNode {
    /// Simple name (`"Person"`).
    pub name: String,
    pub source_info: SourceInfo,
    /// The package the element was allocated under.
    pub parent_package: PackageId,
}

/// A compiled element payload.
#[derive(Debug)]
pub enum Element {
    Class(Class),
    Enumeration(Enumeration),
    Function(Function),
    Profile(Profile),
    Association(Association),
    Measure(Measure),
    PrimitiveType(PrimitiveType),
    Unit(Unit),
}

/// A node of the global package tree.
#[derive(Debug)]
pub struct Package {
    /// Simple name (`""` for the root).
    pub name: String,
    /// Parent package; `None` for the root.
    pub parent: Option<PackageId>,
    pub children_packages: Vec<PackageId>,
    pub children_elements: Vec<ElementId>,
}

/// A batch of elements from one source file (chunk 0 is bootstrap).
/// `nodes` and `elements` are parallel.
#[derive(Debug)]
pub struct ModelChunk {
    pub chunk_id: u16,
    pub nodes: Arena<ElementNode>,
    pub elements: Arena<Element>,
}

impl ModelChunk {
    /// The two arenas describe the same elements.
    pub open spec fn parallel(&self) -> bool {
        self.nodes.items.len() == self.elements.items.len()
    }

    /// An empty chunk.
    pub fn new(chunk_id: u16) -> (r: Self)
        ensures
            r.chunk_id == chunk_id,
            r.nodes.items@.len() == 0,
            r.elements.items@.len() == 0,
    {
        ModelChunk { chunk_id, nodes: Arena::new(), elements: Arena::new() }
    }

    /// Allocates an element in both arenas; returns its local index.
    pub fn alloc_element(&mut self, node: ElementNode, element: Element) -> (idx: u32)
        requires
            old(self).parallel(),
            old(self).nodes.items.len() < u32::MAX,
        ensures
            final(self).parallel(),
            final(self).chunk_id == old(self).chunk_id,
            final(self).nodes.items@ == old(self).nodes.items@.push(node),
            final(self).elements.items@ == old(self).elements.items@.push(element),
            idx as int == old(self).nodes.items.len(),
    {
        let node_idx = self.nodes.allocate(node);
        let _elem_idx = self.elements.allocate(element);
        node_idx
    }
}

/// The value stored under `key` in an association list (first match),
/// or the empty sequence.
pub open spec fn lookup<K, V>(list: Seq<(K, Vec<V>)>, key: K) -> Seq<V>
    decreases list.len(),
{
    if list.len() == 0 {
        Seq::empty()
    } else if list[0].0 == key {
        list[0].1@
    } else {
        lookup(list.drop_first(), key)
    }
}

/// Reverse indexes computed after the model is frozen.
#[derive(Debug)]
pub struct DerivedIndexes {
    /// Class → its direct subclasses.
    pub specializations: Vec<(ElementId, Vec<ElementId>)>,
    /// Class → `(association, property index)` of association ends
    /// targeting it.
    pub association_properties: Vec<(ElementId, Vec<(ElementId, usize)>)>,
}

impl DerivedIndexes {
    /// Empty indexes.
    pub fn new() -> (r: Self)
        ensures
            r.specializations@.len() == 0,
            r.association_properties@.len() == 0,
    {
        DerivedIndexes { specializations: Vec::new(), association_properties: Vec::new() }
    }
}

/// The compiled Pure semantic graph.
#[derive(Debug)]
pub struct PureModel {
    pub global_packages: Arena<Package>,
    pub root_package: PackageId,
    pub chunks: Vec<ModelChunk>,
    pub derived: DerivedIndexes,
}

impl PureModel {
    // -- spec accessors ------------------------------------------------------

    pub open spec fn valid_pkg(&self, p: PackageId) -> bool {
        (p.0 as int) < self.global_packages.items.len()
    }

    pub open spec fn pkg(&self, p: PackageId) -> Package {
        self.global_packages.items@[p.0 as int]
    }

    pub open spec fn valid_id(&self, id: ElementId) -> bool {
        &&& (id.chunk_id as int) < self.chunks.len()
        &&& (id.local_idx as int) < self.chunks@[id.chunk_id as int].elements.items.len()
    }

    pub open spec fn valid_node(&self, id: ElementId) -> bool {
        &&& (id.chunk_id as int) < self.chunks.len()
        &&& (id.local_idx as int) < self.chunks@[id.chunk_id as int].nodes.items.len()
    }

    pub open spec fn elem(&self, id: ElementId) -> Element {
        self.chunks@[id.chunk_id as int].elements.items@[id.local_idx as int]
    }

    pub open spec fn node(&self, id: ElementId) -> ElementNode {
        self.chunks@[id.chunk_id as int].nodes.items@[id.local_idx as int]
    }

    pub open spec fn derived_view(&self) -> DerivedIndexes {
        self.derived
    }

    /// Direct subclasses recorded for `id`.
    pub open spec fn spec_specializations(&self, id: ElementId) -> Seq<ElementId> {
        lookup(self.derived_view().specializations@, id)
    }

    /// Association ends recorded as targeting `id`.
    pub open spec fn spec_association_properties(&self, id: ElementId) -> Seq<(ElementId, usize)> {
        lookup(self.derived_view().association_properties@, id)
    }

    /// Structural invariant of the package tree: a valid root with no
    /// parent; every parent allocated before its child; every listed
    /// child package valid and pointing back at its parent.
    pub open spec fn wf(&self) -> bool {
        &&& self.global_packages.items.len() <= u32::MAX
        &&& self.valid_pkg(self.root_package)
        &&& self.pkg(self.root_package).parent is None
        &&& forall|p: PackageId|
            #![trigger self.pkg(p)]
            self.valid_pkg(p) ==> match self.pkg(p).parent {
                Some(q) => q.0 < p.0,
                None => true,
            }
        &&& forall|p: PackageId, j: int|
            #![trigger self.pkg(p).children_packages@[j]]
            self.valid_pkg(p) && 0 <= j < self.pkg(p).children_packages.len() ==> {
                let c = self.pkg(p).children_packages@[j];
                &&& self.valid_pkg(c)
                &&& self.pkg(c).parent == Some(p)
            }
    }

    /// Every element listed in a package has a node.
    pub open spec fn children_resolvable(&self) -> bool {
        forall|p: PackageId, j: int|
            #![trigger self.pkg(p).children_elements@[j]]
            self.valid_pkg(p) && 0 <= j < self.pkg(p).children_elements.len()
                ==> self.valid_node(self.pkg(p).children_elements@[j])
    }

    /// Segment names from the root down to `p` (empty for the root).
    pub open spec fn pkg_path(&self, p: PackageId) -> Seq<Seq<char>>
        decreases p.0,
    {
        match self.pkg(p).parent {
            Some(q) => if q.0 < p.0 {
                self.pkg_path(q).push(self.pkg(p).name@)
            } else {
                Seq::empty()
            },
            None => Seq::empty(),
        }
    }

    /// First listed child package of `p` named `name`.
    pub open spec fn child_pkg_in(&self, kids: Seq<PackageId>, name: Seq<char>) -> Option<PackageId>
        decreases kids.len(),
    {
        if kids.len() == 0 {
            None
        } else if self.pkg(kids[0]).name@ == name {
            Some(kids[0])
        } else {
            self.child_pkg_in(kids.drop_first(), name)
        }
    }

    /// First listed element of a package named `name`.
    pub open spec fn child_elem_in(&self, kids: Seq<ElementId>, name: Seq<char>) -> Option<ElementId>
        decreases kids.len(),
    {
        if kids.len() == 0 {
            None
        } else if self.node(kids[0]).name@ == name {
            Some(kids[0])
        } else {
            self.child_elem_in(kids.drop_first(), name)
        }
    }

    /// Walks `segs` down the package tree from `start`.
    pub open spec fn walk_pkgs(&self, start: PackageId, segs: Seq<Seq<char>>) -> Option<PackageId>
        decreases segs.len(),
    {
        if segs.len() == 0 {
            Some(start)
        } else {
            match self.child_pkg_in(self.pkg(start).children_packages@, segs[0]) {
                Some(c) => self.walk_pkgs(c, segs.drop_first()),
                None => None,
            }
        }
    }

    /// The element a fully qualified path names, if any.
    pub open spec fn spec_resolve_by_path(&self, path: Seq<Seq<char>>) -> Option<ElementId> {
        if path.len() == 0 {
            None
        } else {
            match self.walk_pkgs(self.root_package, path.drop_last()) {
                Some(p) => self.child_elem_in(self.pkg(p).children_elements@, path.last()),
                None => None,
            }
        }
    }

    // -- exec API ------------------------------------------------------------

    /// A new model holding only the (unnamed) root package.
    pub fn new() -> (r: Self)
        ensures
            r.wf(),
            r.children_resolvable(),
            r.global_packages.items@.len() == 1,
            r.root_package == PackageId(0),
            r.pkg(r.root_package).name@.len() == 0,
            r.pkg(r.root_package).children_packages@.len() == 0,
            r.pkg(r.root_package).children_elements@.len() == 0,
            r.chunks@.len() == 0,
            r.derived_view().specializations@.len() == 0,
            r.derived_view().association_properties@.len() == 0,
    {
        let mut global_packages: Arena<Package> = Arena::new();
        let root_idx = global_packages.allocate(
            Package {
                name: String::new(),
                parent: None,
                children_packages: Vec::new(),
                children_elements: Vec::new(),
            },
        );
        PureModel {
            global_packages,
            root_package: PackageId(root_idx),
            chunks: Vec::new(),
            derived: DerivedIndexes::new(),
        }
    }

    /// The node of element `id`.
    pub fn get_node(&self, id: ElementId) -> (r: &ElementNode)
        requires
            self.valid_node(id),
        ensures
            *r == self.node(id),
    {
        self.chunks[id.chunk_id as usize].nodes.get(id.local_idx)
    }

    /// The payload of element `id`.
    pub fn get_element(&self, id: ElementId) -> (r: &Element)
        requires
            self.valid_id(id),
        ensures
            *r == self.elem(id),
    {
        self.chunks[id.chunk_id as usize].elements.get(id.local_idx)
    }

    /// The payload of element `id`, or `None` when `id` is out of range.
    pub fn try_get_element(&self, id: ElementId) -> (r: Option<&Element>)
        ensures
            r is Some <==> self.valid_id(id),
            r matches Some(e) ==> *e == self.elem(id),
    {
        if (id.chunk_id as usize) < self.chunks.len() {
            let chunk = &self.chunks[id.chunk_id as usize];
            if (id.local_idx as usize) < chunk.elements.items.len() {
                return Some(chunk.elements.get(id.local_idx));
            }
        }
        None
    }

    /// The package `id`.
    pub fn get_package(&self, id: PackageId) -> (r: &Package)
        requires
            self.valid_pkg(id),
        ensures
            *r == self.pkg(id),
    {
        self.global_packages.get(id.0)
    }

    /// The derived indexes.
    pub fn derived(&self) -> (r: &DerivedIndexes)
        ensures
            *r == self.derived_view(),
    {
        &self.derived
    }

    /// Direct subclasses of `id` (empty when none are recorded).
    pub fn specializations(&self, id: ElementId) -> (r: &[ElementId])
        ensures
            r@ == self.spec_specializations(id),
    {
        let list = &self.derived.specializations;
        let mut i: usize = 0;
        assert(list@.subrange(0, list@.len() as int) =~= list@);
        while i < list.len()
            invariant
                list@ == self.derived.specializations@,
                i <= list.len(),
                lookup(list@, id) == lookup(list@.subrange(i as int, list@.len() as int), id),
            decreases list.len() - i,
        {
            assert(list@.subrange(i as int, list@.len() as int).drop_first() =~= list@.subrange(
                i + 1,
                list@.len() as int,
            ));
            assert(list@.subrange(i as int, list@.len() as int)[0] == list@[i as int]);
            if list[i].0 == id {
                return list[i].1.as_slice();
            }
            i = i + 1;
        }
        &[]
    }

    /// Association ends `(association, property index)` targeting `id`.
    pub fn association_properties(&self, id: ElementId) -> (r: &[(ElementId, usize)])
        ensures
            r@ == self.spec_association_properties(id),
    {
        let list = &self.derived.association_properties;
        let mut i: usize = 0;
        assert(list@.subrange(0, list@.len() as int) =~= list@);
        while i < list.len()
            invariant
                list@ == self.derived.association_properties@,
                i <= list.len(),
                lookup(list@, id) == lookup(list@.subrange(i as int, list@.len() as int), id),
            decreases list.len() - i,
        {
            assert(list@.subrange(i as int, list@.len() as int).drop_first() =~= list@.subrange(
                i + 1,
                list@.len() as int,
            ));
            assert(list@.subrange(i as int, list@.len() as int)[0] == list@[i as int]);
            if list[i].0 == id {
                return list[i].1.as_slice();
            }
            i = i + 1;
        }
        &[]
    }

    /// Adds `element` to the children of `package`.
    pub fn register_element(&mut self, package: PackageId, element: ElementId)
        requires
            old(self).valid_pkg(package),
        ensures
            final(self).global_packages.items@.len() == old(self).global_packages.items@.len(),
            final(self).pkg(package).children_elements@ == old(
                self,
            ).pkg(package).children_elements@.push(element),
            final(self).pkg(package).name == old(self).pkg(package).name,
            final(self).pkg(package).parent == old(self).pkg(package).parent,
            final(self).pkg(package).children_packages == old(self).pkg(package).children_packages,
            forall|p: PackageId|
                p != package && old(self).valid_pkg(p) ==> #[trigger] final(self).pkg(p) == old(
                    self,
                ).pkg(p),
            final(self).root_package == old(self).root_package,
            final(self).chunks == old(self).chunks,
            final(self).derived_view() == old(self).derived_view(),
            old(self).wf() ==> final(self).wf(),
            old(self).children_resolvable() && old(self).valid_node(element)
                ==> final(self).children_resolvable(),
    {
        self.global_packages.items[package.0 as usize].children_elements.push(element);
        proof {
            assert forall|p: PackageId| p != package && old(self).valid_pkg(p) implies #[trigger] self.pkg(
                p,
            ) == old(self).pkg(p) by {
                assert(p.0 != package.0);
            }
        }
    }
}


// ---------------------------------------------------------------------------
// Package-tree lemmas
// ---------------------------------------------------------------------------

/// `m2` only grew from `m1`: packages appended, names and parents kept,
/// child lists only appended to, element lists kept.
pub open spec fn extends(m2: PureModel, m1: PureModel) -> bool {
    &&& m1.global_packages.items.len() <= m2.global_packages.items.len()
    &&& m2.root_package == m1.root_package
    &&& forall|p: PackageId|
        #![trigger m2.pkg(p)]
        m1.valid_pkg(p) ==> {
            &&& m2.pkg(p).name == m1.pkg(p).name
            &&& m2.pkg(p).parent == m1.pkg(p).parent
            &&& m1.pkg(p).children_packages@.len() <= m2.pkg(p).children_packages@.len()
            &&& m1.pkg(p).children_packages@ =~= m2.pkg(p).children_packages@.subrange(
                0,
                m1.pkg(p).children_packages@.len() as int,
            )
            &&& m2.pkg(p).children_elements == m1.pkg(p).children_elements
        }
}

pub proof fn lemma_extends_refl(m: PureModel)
    ensures
        extends(m, m),
{
    assert forall|p: PackageId| m.valid_pkg(p) implies m.pkg(p).children_packages@ =~= m.pkg(
        p,
    ).children_packages@.subrange(0, m.pkg(p).children_packages@.len() as int) by {}
}

pub proof fn lemma_extends_trans(m3: PureModel, m2: PureModel, m1: PureModel)
    requires
        extends(m2, m1),
        extends(m3, m2),
    ensures
        extends(m3, m1),
{
    assert forall|p: PackageId| #![trigger m3.pkg(p)] m1.valid_pkg(p) implies {
        &&& m3.pkg(p).name == m1.pkg(p).name
        &&& m3.pkg(p).parent == m1.pkg(p).parent
        &&& m1.pkg(p).children_packages@.len() <= m3.pkg(p).children_packages@.len()
        &&& m1.pkg(p).children_packages@ =~= m3.pkg(p).children_packages@.subrange(
            0,
            m1.pkg(p).children_packages@.len() as int,
        )
        &&& m3.pkg(p).children_elements == m1.pkg(p).children_elements
    } by {
        assert(m2.valid_pkg(p));
        assert(m2.pkg(p) == m2.pkg(p));
        assert(m3.pkg(p) == m3.pkg(p));
    }
}

/// Paths of existing packages survive growth.
pub proof fn lemma_pkg_path_extends(m2: PureModel, m1: PureModel, p: PackageId)
    requires
        extends(m2, m1),
        m1.wf(),
        m1.valid_pkg(p),
    ensures
        m2.pkg_path(p) == m1.pkg_path(p),
    decreases p.0,
{
    assert(m2.pkg(p) == m2.pkg(p));
    assert(m1.pkg(p) == m1.pkg(p));
    match m1.pkg(p).parent {
        Some(q) => {
            lemma_pkg_path_extends(m2, m1, q);
        },
        None => {},
    }
}

/// The first child named `x` is one of the listed children and has that
/// name.
pub proof fn lemma_child_pkg_in_found(m: PureModel, kids: Seq<PackageId>, x: Seq<char>)
    ensures
        m.child_pkg_in(kids, x) matches Some(c) ==> kids.contains(c) && m.pkg(c).name@ == x,
    decreases kids.len(),
{
    if kids.len() > 0 && m.pkg(kids[0]).name@ != x {
        lemma_child_pkg_in_found(m, kids.drop_first(), x);
        if let Some(c) = m.child_pkg_in(kids, x) {
            let k = choose|k: int| 0 <= k < kids.drop_first().len() && kids.drop_first()[k] == c;
            assert(kids[k + 1] == c);
        }
    }
}

/// A found child stays the first match when the list is appended to and
/// the listed packages keep their names.
pub proof fn lemma_child_pkg_in_prefix(
    m2: PureModel,
    m1: PureModel,
    kids1: Seq<PackageId>,
    kids2: Seq<PackageId>,
    x: Seq<char>,
)
    requires
        extends(m2, m1),
        kids1.len() <= kids2.len(),
        kids1 =~= kids2.subrange(0, kids1.len() as int),
        forall|j: int| 0 <= j < kids1.len() ==> m1.valid_pkg(#[trigger] kids1[j]),
        m1.child_pkg_in(kids1, x) is Some,
    ensures
        m2.child_pkg_in(kids2, x) == m1.child_pkg_in(kids1, x),
    decreases kids1.len(),
{
    assert(kids2[0] == kids1[0]);
    assert(m2.pkg(kids1[0]) == m2.pkg(kids1[0]));
    if m1.pkg(kids1[0]).name@ != x {
        assert(kids1.drop_first() =~= kids2.drop_first().subrange(0, kids1.len() - 1));
        lemma_child_pkg_in_prefix(m2, m1, kids1.drop_first(), kids2.drop_first(), x);
    }
}

/// Appending a child named `x` to a list holding none makes it the
/// first match.
pub proof fn lemma_child_pkg_in_push_new(m: PureModel, kids: Seq<PackageId>, c: PackageId, x: Seq<char>)
    requires
        m.child_pkg_in(kids, x) is None,
        m.pkg(c).name@ == x,
    ensures
        m.child_pkg_in(kids.push(c), x) == Some(c),
    decreases kids.len(),
{
    if kids.len() > 0 {
        assert(kids.push(c).drop_first() =~= kids.drop_first().push(c));
        lemma_child_pkg_in_push_new(m, kids.drop_first(), c, x);
    }
}

/// Walking one more segment is walking the prefix and then one child step.
pub proof fn lemma_walk_push(m: PureModel, s: PackageId, a: Seq<Seq<char>>, x: Seq<char>)
    ensures
        m.walk_pkgs(s, a.push(x)) == match m.walk_pkgs(s, a) {
            Some(p) => m.child_pkg_in(m.pkg(p).children_packages@, x),
            None => None,
        },
    decreases a.len(),
{
    assert(a.push(x).len() > 0);
    if a.len() == 0 {
        assert(a.push(x)[0] == x);
        assert(a.push(x).drop_first() =~= Seq::<Seq<char>>::empty());
        match m.child_pkg_in(m.pkg(s).children_packages@, x) {
            Some(c) => {
                assert(m.walk_pkgs(c, a.push(x).drop_first()) == Some(c));
            },
            None => {},
        }
    } else {
        assert(a.push(x)[0] == a[0]);
        assert(a.push(x).drop_first() =~= a.drop_first().push(x));
        match m.child_pkg_in(m.pkg(s).children_packages@, a[0]) {
            Some(c) => {
                lemma_walk_push(m, c, a.drop_first(), x);
            },
            None => {},
        }
    }
}

/// Successful walks survive growth.
pub proof fn lemma_walk_extends(m2: PureModel, m1: PureModel, s: PackageId, segs: Seq<Seq<char>>)
    requires
        extends(m2, m1),
        m1.wf(),
        m1.valid_pkg(s),
        m1.walk_pkgs(s, segs) is Some,
    ensures
        m2.walk_pkgs(s, segs) == m1.walk_pkgs(s, segs),
        m1.valid_pkg(m1.walk_pkgs(s, segs).unwrap()),
    decreases segs.len(),
{
    if segs.len() > 0 {
        let kids1 = m1.pkg(s).children_packages@;
        let kids2 = m2.pkg(s).children_packages@;
        assert(m2.pkg(s) == m2.pkg(s));
        assert forall|j: int| 0 <= j < kids1.len() implies m1.valid_pkg(#[trigger] kids1[j]) by {
            assert(m1.pkg(s).children_packages@[j] == kids1[j]);
        }
        lemma_child_pkg_in_prefix(m2, m1, kids1, kids2, segs[0]);
        lemma_child_pkg_in_found(m1, kids1, segs[0]);
        let c = m1.child_pkg_in(kids1, segs[0]).unwrap();
        let k = choose|k: int| 0 <= k < kids1.len() && kids1[k] == c;
        assert(m1.pkg(s).children_packages@[k] == c);
        lemma_walk_extends(m2, m1, c, segs.drop_first());
    }
}

/// The path of a child is its parent's path plus its own name.
pub proof fn lemma_pkg_path_child(m: PureModel, p: PackageId, c: PackageId)
    requires
        m.wf(),
        m.valid_pkg(c),
        m.pkg(c).parent == Some(p),
    ensures
        m.pkg_path(c) == m.pkg_path(p).push(m.pkg(c).name@),
{
    assert(m.pkg(c) == m.pkg(c));
}

/// Walking a path from the root ends at a package whose path is exactly
/// the walked segments.
pub proof fn lemma_walk_path(m: PureModel, s: PackageId, segs: Seq<Seq<char>>)
    requires
        m.wf(),
        m.valid_pkg(s),
        m.walk_pkgs(s, segs) is Some,
    ensures
        m.valid_pkg(m.walk_pkgs(s, segs).unwrap()),
        m.pkg_path(m.walk_pkgs(s, segs).unwrap()) == m.pkg_path(s) + segs,
    decreases segs.len(),
{
    if segs.len() == 0 {
        assert(m.pkg_path(s) + segs =~= m.pkg_path(s));
    } else {
        let kids = m.pkg(s).children_packages@;
        lemma_child_pkg_in_found(m, kids, segs[0]);
        let c = m.child_pkg_in(kids, segs[0]).unwrap();
        let k = choose|k: int| 0 <= k < kids.len() && kids[k] == c;
        assert(m.pkg(s).children_packages@[k] == c);
        lemma_pkg_path_child(m, s, c);
        lemma_walk_path(m, c, segs.drop_first());
        assert(m.pkg_path(s).push(segs[0]) + segs.drop_first() =~= m.pkg_path(s) + segs);
    }
}

/// The view of a list of names.
pub open spec fn names_view(path: Seq<String>) -> Seq<Seq<char>> {
    path.map_values(|s: String| s@)
}

impl PureModel {
    /// First child package of `parent` named `name`.
    pub(crate) fn find_child_package(&self, parent: PackageId, name: &String) -> (r: Option<PackageId>)
        requires
            self.wf(),
            self.valid_pkg(parent),
        ensures
            r == self.child_pkg_in(self.pkg(parent).children_packages@, name@),
            r matches Some(c) ==> self.valid_pkg(c) && self.pkg(c).parent == Some(parent),
    {
        let kids = &self.global_packages.items[parent.0 as usize].children_packages;
        let mut j: usize = 0;
        assert(kids@.subrange(0, kids@.len() as int) =~= kids@);
        while j < kids.len()
            invariant
                kids@ == self.pkg(parent).children_packages@,
                self.wf(),
                self.valid_pkg(parent),
                j <= kids.len(),
                self.child_pkg_in(kids@, name@) == self.child_pkg_in(
                    kids@.subrange(j as int, kids@.len() as int),
                    name@,
                ),
            decreases kids.len() - j,
        {
            let ghost rest = kids@.subrange(j as int, kids@.len() as int);
            assert(rest.drop_first() =~= kids@.subrange(j + 1, kids@.len() as int));
            assert(rest[0] == kids@[j as int]);
            let c = kids[j];
            assert(self.pkg(parent).children_packages@[j as int] == c);
            if self.global_packages.items[c.0 as usize].name == *name {
                return Some(c);
            }
            j = j + 1;
        }
        None
    }

    /// First element of `package` named `name`.
    fn find_child_element(&self, package: PackageId, name: &String) -> (r: Option<ElementId>)
        requires
            self.valid_pkg(package),
            self.children_resolvable(),
        ensures
            r == self.child_elem_in(self.pkg(package).children_elements@, name@),
    {
        let kids = &self.global_packages.items[package.0 as usize].children_elements;
        let mut j: usize = 0;
        assert(kids@.subrange(0, kids@.len() as int) =~= kids@);
        while j < kids.len()
            invariant
                kids@ == self.pkg(package).children_elements@,
                self.valid_pkg(package),
                self.children_resolvable(),
                j <= kids.len(),
                self.child_elem_in(kids@, name@) == self.child_elem_in(
                    kids@.subrange(j as int, kids@.len() as int),
                    name@,
                ),
            decreases kids.len() - j,
        {
            let ghost rest = kids@.subrange(j as int, kids@.len() as int);
            assert(rest.drop_first() =~= kids@.subrange(j + 1, kids@.len() as int));
            assert(rest[0] == kids@[j as int]);
            let e = kids[j];
            assert(self.pkg(package).children_elements@[j as int] == e);
            if self.get_node(e).name == *name {
                return Some(e);
            }
            j = j + 1;
        }
        None
    }

    /// Walks `segments` from the root; `None` when a segment is missing.
    pub fn resolve_package(&self, segments: &[String]) -> (r: Option<PackageId>)
        requires
            self.wf(),
        ensures
            r == self.walk_pkgs(self.root_package, names_view(segments@)),
            r matches Some(p) ==> self.valid_pkg(p),
    {
        let ghost segs = names_view(segments@);
        let mut current = self.root_package;
        let mut i: usize = 0;
        assert(segs.subrange(0, segs.len() as int) =~= segs);
        while i < segments.len()
            invariant
                self.wf(),
                segs == names_view(segments@),
                i <= segments.len(),
                self.valid_pkg(current),
                self.walk_pkgs(self.root_package, segs) == self.walk_pkgs(
                    current,
                    segs.subrange(i as int, segs.len() as int),
                ),
            decreases segments.len() - i,
        {
            let ghost rest = segs.subrange(i as int, segs.len() as int);
            assert(rest.drop_first() =~= segs.subrange(i + 1, segs.len() as int));
            assert(rest[0] == segments@[i as int]@);
            match self.find_child_package(current, &segments[i]) {
                Some(c) => {
                    current = c;
                },
                None => {
                    return None;
                },
            }
            i = i + 1;
        }
        assert(segs.subrange(i as int, segs.len() as int) =~= Seq::<Seq<char>>::empty());
        Some(current)
    }

    /// Resolves a fully qualified name (package segments then the element
    /// name) to the element it names.
    pub fn resolve_by_path(&self, path: &[String]) -> (r: Option<ElementId>)
        requires
            self.wf(),
            self.children_resolvable(),
        ensures
            r == self.spec_resolve_by_path(names_view(path@)),
    {
        if path.len() == 0 {
            return None;
        }
        let n = path.len() - 1;
        let (pkg_path, name) = path.split_at(n);
        assert(names_view(pkg_path@) =~= names_view(path@).drop_last());
        match self.resolve_package(pkg_path) {
            Some(p) => self.find_child_element(p, &name[0]),
            None => None,
        }
    }

    /// Resolves `name` inside the package named by `segments`.
    pub fn resolve_in_package(&self, segments: &[String], name: &String) -> (r: Option<ElementId>)
        requires
            self.wf(),
            self.children_resolvable(),
        ensures
            r == match self.walk_pkgs(self.root_package, names_view(segments@)) {
                Some(p) => self.child_elem_in(self.pkg(p).children_elements@, name@),
                None => None,
            },
    {
        match self.resolve_package(segments) {
            Some(p) => self.find_child_element(p, name),
            None => None,
        }
    }

    /// Finds or creates the package `path` (segments from the root),
    /// creating missing intermediate packages.
    pub fn get_or_create_package(&mut self, path: &[String]) -> (r: PackageId)
        requires
            old(self).wf(),
            old(self).global_packages.items.len() + path.len() <= u32::MAX,
        ensures
            final(self).wf(),
            final(self).valid_pkg(r),
            final(self).pkg_path(r) == names_view(path@),
            final(self).walk_pkgs(final(self).root_package, names_view(path@)) == Some(r),
            extends(*final(self), *old(self)),
            final(self).chunks == old(self).chunks,
            final(self).derived_view() == old(self).derived_view(),
            old(self).children_resolvable() ==> final(self).children_resolvable(),
            old(self).walk_pkgs(old(self).root_package, names_view(path@)) is Some ==> *final(self)
                == *old(self),
    {
        let ghost segs = names_view(path@);
        let ghost m0 = *self;
        let mut current = self.root_package;
        let mut i: usize = 0;
        proof {
            lemma_extends_refl(*self);
            assert(segs.take(0) =~= Seq::<Seq<char>>::empty());
        }
        while i < path.len()
            invariant
                self.wf(),
                m0.wf(),
                segs == names_view(path@),
                i <= path.len(),
                self.global_packages.items.len() + (path.len() - i) <= u32::MAX,
                self.valid_pkg(current),
                self.pkg_path(current) == segs.take(i as int),
                self.walk_pkgs(self.root_package, segs.take(i as int)) == Some(current),
                extends(*self, m0),
                self.chunks == m0.chunks,
                self.derived == m0.derived,
                m0.children_resolvable() ==> self.children_resolvable(),
                m0.walk_pkgs(m0.root_package, segs.take(i as int)) is Some ==> *self == m0,
                m0.walk_pkgs(m0.root_package, segs.take(i as int)) is None ==> m0.walk_pkgs(
                    m0.root_package,
                    segs,
                ) is None,
            decreases path.len() - i,
        {
            let ghost before = *self;
            proof {
                assert(segs.take(i + 1) =~= segs.take(i as int).push(segs[i as int]));
                lemma_walk_push(*self, self.root_package, segs.take(i as int), segs[i as int]);
                lemma_walk_push(m0, m0.root_package, segs.take(i as int), segs[i as int]);
                assert(segs[i as int] == path@[i as int]@);
            }
            match self.find_child_package(current, &path[i]) {
                Some(c) => {
                    proof {
                        lemma_pkg_path_child(*self, current, c);
                        lemma_child_pkg_in_found(
                            *self,
                            self.pkg(current).children_packages@,
                            segs[i as int],
                        );
                    }
                    current = c;
                },
                None => {
                    let n = self.global_packages.items.len() as u32;
                    let new_id = PackageId(n);
                    self.global_packages.items.push(
                        Package {
                            name: path[i].clone(),
                            parent: Some(current),
                            children_packages: Vec::new(),
                            children_elements: Vec::new(),
                        },
                    );
                    let ghost mid = *self;
                    self.global_packages.items[current.0 as usize].children_packages.push(new_id);
                    proof {
                        assert(mid.pkg(new_id) == self.pkg(new_id));
                        assert forall|p: PackageId| #![trigger self.pkg(p)] before.valid_pkg(p) implies {
                            &&& self.pkg(p).name == before.pkg(p).name
                            &&& self.pkg(p).parent == before.pkg(p).parent
                            &&& before.pkg(p).children_packages@.len()
                                <= self.pkg(p).children_packages@.len()
                            &&& before.pkg(p).children_packages@ =~= self.pkg(
                                p,
                            ).children_packages@.subrange(
                                0,
                                before.pkg(p).children_packages@.len() as int,
                            )
                            &&& self.pkg(p).children_elements == before.pkg(p).children_elements
                        } by {
                            assert(mid.pkg(p) == before.pkg(p));
                        }
                        assert(extends(*self, before));
                        assert forall|p: PackageId| #![trigger self.pkg(p)] self.valid_pkg(p) implies match self.pkg(p).parent {
                            Some(q) => q.0 < p.0,
                            None => true,
                        } by {
                            if p != new_id {
                                assert(before.valid_pkg(p));
                            }
                        }
                        assert forall|p: PackageId, j: int|
                            #![trigger self.pkg(p).children_packages@[j]]
                            self.valid_pkg(p) && 0 <= j < self.pkg(p).children_packages.len() implies {
                            let c = self.pkg(p).children_packages@[j];
                            &&& self.valid_pkg(c)
                            &&& self.pkg(c).parent == Some(p)
                        } by {
                            if p == new_id {
                            } else if p == current && j == before.pkg(p).children_packages.len() {
                            } else {
                                assert(before.valid_pkg(p));
                                assert(self.pkg(p).children_packages@[j] == before.pkg(
                                    p,
                                ).children_packages@[j]);
                                let cc = before.pkg(p).children_packages@[j];
                                assert(before.valid_pkg(cc));
                                assert(self.pkg(cc) == self.pkg(cc));
                            }
                        }
                        assert(self.wf());
                        if m0.children_resolvable() {
                            assert forall|p: PackageId, j: int|
                                #![trigger self.pkg(p).children_elements@[j]]
                                self.valid_pkg(p) && 0 <= j < self.pkg(p).children_elements.len()
                                implies self.valid_node(self.pkg(p).children_elements@[j]) by {
                                if p != new_id {
                                    assert(before.valid_pkg(p));
                                    assert(before.pkg(p).children_elements@[j] == self.pkg(
                                        p,
                                    ).children_elements@[j]);
                                }
                            }
                        }
                        lemma_pkg_path_extends(*self, before, current);
                        lemma_pkg_path_child(*self, current, new_id);
                        lemma_walk_extends(*self, before, self.root_package, segs.take(i as int));
                        assert forall|j: int|
                            0 <= j < before.pkg(current).children_packages@.len() implies before.valid_pkg(
                            #[trigger] before.pkg(current).children_packages@[j],
                        ) by {}
                        assert(before.child_pkg_in(before.pkg(current).children_packages@, segs[i as int])
                            is None);
                        lemma_child_pkg_in_none_extends(
                            *self,
                            before,
                            before.pkg(current).children_packages@,
                            segs[i as int],
                        );
                        lemma_child_pkg_in_push_new(
                            *self,
                            before.pkg(current).children_packages@,
                            new_id,
                            segs[i as int],
                        );
                        assert(self.pkg(current).children_packages@ =~= before.pkg(
                            current,
                        ).children_packages@.push(new_id));
                        lemma_walk_push(*self, self.root_package, segs.take(i as int), segs[i as int]);
                        lemma_extends_trans(*self, before, m0);
                        if m0.walk_pkgs(m0.root_package, segs.take(i as int)) is Some {
                            assert(before == m0);
                            assert(m0.walk_pkgs(m0.root_package, segs.take(i + 1)) is None);
                            lemma_walk_none_extends(m0, m0.root_package, segs.take(i + 1), segs);
                        } else {
                            lemma_walk_none_extends(m0, m0.root_package, segs.take(i as int), segs);
                        }
                    }
                    current = new_id;
                },
            }
            i = i + 1;
        }
        proof {
            assert(segs.take(i as int) =~= segs);
        }
        current
    }
}

/// A name missing from a list stays missing when the list's packages keep
/// their names.
pub proof fn lemma_child_pkg_in_none_extends(
    m2: PureModel,
    m1: PureModel,
    kids: Seq<PackageId>,
    x: Seq<char>,
)
    requires
        extends(m2, m1),
        forall|j: int| 0 <= j < kids.len() ==> m1.valid_pkg(#[trigger] kids[j]),
        m1.child_pkg_in(kids, x) is None,
    ensures
        m2.child_pkg_in(kids, x) is None,
    decreases kids.len(),
{
    if kids.len() > 0 {
        assert(m2.pkg(kids[0]) == m2.pkg(kids[0]));
        assert(m1.valid_pkg(kids[0]));
        lemma_child_pkg_in_none_extends(m2, m1, kids.drop_first(), x);
    }
}

/// A failed walk cannot succeed on a longer path.
pub proof fn lemma_walk_none_extends(
    m: PureModel,
    s: PackageId,
    a: Seq<Seq<char>>,
    b: Seq<Seq<char>>,
)
    requires
        m.walk_pkgs(s, a) is None,
        a.len() <= b.len(),
        a =~= b.subrange(0, a.len() as int),
    ensures
        m.walk_pkgs(s, b) is None,
    decreases a.len(),
{
    if a.len() > 0 {
        assert(a[0] == b[0]);
        match m.child_pkg_in(m.pkg(s).children_packages@, a[0]) {
            Some(c) => {
                assert(a.drop_first() =~= b.drop_first().subrange(0, a.len() - 1));
                lemma_walk_none_extends(m, c, a.drop_first(), b.drop_first());
            },
            None => {},
        }
    }
}

// ---------------------------------------------------------------------------
// Derived indexes
// ---------------------------------------------------------------------------

/// No key occurs twice in an association list.
pub open spec fn distinct_keys<V>(s: Seq<(ElementId, Vec<V>)>) -> bool {
    forall|i: int, j: int| 0 <= i < s.len() && 0 <= j < s.len() && i != j ==> s[i].0 != s[j].0
}

/// In a list with distinct keys, `lookup` gives the entry holding the key,
/// or nothing.
pub proof fn lemma_lookup_distinct<V>(s: Seq<(ElementId, Vec<V>)>, key: ElementId)
    requires
        distinct_keys(s),
    ensures
        forall|i: int| 0 <= i < s.len() && s[i].0 == key ==> lookup(s, key) == s[i].1@,
        (forall|i: int| 0 <= i < s.len() ==> s[i].0 != key) ==> lookup(s, key) == Seq::<V>::empty(),
    decreases s.len(),
{
    if s.len() > 0 {
        let t = s.drop_first();
        assert forall|i: int, j: int| 0 <= i < t.len() && 0 <= j < t.len() && i != j implies t[i].0
            != t[j].0 by {
            assert(t[i] == s[i + 1]);
            assert(t[j] == s[j + 1]);
        }
        lemma_lookup_distinct(t, key);
        assert forall|i: int| 0 <= i < s.len() && s[i].0 == key implies lookup(s, key) == s[i].1@ by {
            if i > 0 {
                assert(s[0].0 != key);
                assert(t[i - 1] == s[i]);
            }
        }
        if forall|i: int| 0 <= i < s.len() ==> s[i].0 != key {
            assert(s[0].0 != key);
            assert forall|i: int| 0 <= i < t.len() implies t[i].0 != key by {
                assert(t[i] == s[i + 1]);
            }
        }
    }
}

/// Appends `v` to the entry of `key`, creating the entry when missing.
fn add_entry<V>(list: &mut Vec<(ElementId, Vec<V>)>, key: ElementId, v: V)
    requires
        distinct_keys(old(list)@),
    ensures
        distinct_keys(final(list)@),
        lookup(final(list)@, key) == lookup(old(list)@, key).push(v),
        forall|k: ElementId| k != key ==> lookup(final(list)@, k) == lookup(old(list)@, k),
{
    proof {
        lemma_lookup_distinct(list@, key);
    }
    let ghost start = list@;
    let mut i: usize = 0;
    while i < list.len()
        invariant
            list@ == start,
            start == old(list)@,
            distinct_keys(start),
            i <= list@.len(),
            forall|j: int| 0 <= j < i ==> list@[j].0 != key,
        decreases list.len() - i,
    {
        if list[i].0 == key {
            let ghost before = list@;
            list[i].1.push(v);
            proof {
                assert forall|a: int, b: int|
                    0 <= a < list@.len() && 0 <= b < list@.len() && a != b implies list@[a].0
                    != list@[b].0 by {
                    assert(list@[a].0 == before[a].0);
                    assert(list@[b].0 == before[b].0);
                }
                lemma_lookup_distinct(list@, key);
                lemma_lookup_distinct(before, key);
                assert(list@[i as int].1@ == before[i as int].1@.push(v));
                assert forall|k: ElementId| k != key implies lookup(list@, k) == lookup(before, k) by {
                    lemma_lookup_distinct(list@, k);
                    lemma_lookup_distinct(before, k);
                    if exists|j: int| 0 <= j < before.len() && before[j].0 == k {
                        let j = choose|j: int| 0 <= j < before.len() && before[j].0 == k;
                        assert(list@[j] == before[j]);
                    } else {
                        assert forall|j: int| 0 <= j < list@.len() implies list@[j].0 != k by {
                            assert(list@[j].0 == before[j].0);
                        }
                    }
                }
            }
            return;
        }
        i = i + 1;
    }
    let ghost before = list@;
    let mut fresh: Vec<V> = Vec::new();
    fresh.push(v);
    list.push((key, fresh));
    proof {
        assert forall|a: int, b: int|
            0 <= a < list@.len() && 0 <= b < list@.len() && a != b implies list@[a].0
            != list@[b].0 by {
            if a < before.len() {
                assert(list@[a] == before[a]);
            }
            if b < before.len() {
                assert(list@[b] == before[b]);
            }
        }
        lemma_lookup_distinct(before, key);
        lemma_lookup_distinct(list@, key);
        assert(list@[before.len() as int].0 == key);
        assert(lookup(before, key) == Seq::<V>::empty());
        assert(list@[before.len() as int].1@ =~= seq![v]);
        assert forall|k: ElementId| k != key implies lookup(list@, k) == lookup(before, k) by {
            lemma_lookup_distinct(list@, k);
            lemma_lookup_distinct(before, k);
            if exists|j: int| 0 <= j < before.len() && before[j].0 == k {
                let j = choose|j: int| 0 <= j < before.len() && before[j].0 == k;
                assert(list@[j] == before[j]);
            } else {
                assert forall|j: int| 0 <= j < list@.len() implies list@[j].0 != k by {
                    if j < before.len() {
                        assert(list@[j] == before[j]);
                    }
                }
            }
        }
    }
}

/// The values grouped under `key`, in order.
pub open spec fn grouped<V>(edges: Seq<(ElementId, V)>, key: ElementId) -> Seq<V>
    decreases edges.len(),
{
    if edges.len() == 0 {
        Seq::empty()
    } else {
        let prev = grouped(edges.drop_last(), key);
        if edges.last().0 == key {
            prev.push(edges.last().1)
        } else {
            prev
        }
    }
}

/// Each of `s` paired with `id`.
pub open spec fn pair_with(s: Seq<ElementId>, id: ElementId) -> Seq<(ElementId, ElementId)> {
    s.map_values(|p: ElementId| (p, id))
}

/// `(supertype, class)` edges of one element: one per `Named` supertype.
pub open spec fn element_spec_edges(id: ElementId, e: Element) -> Seq<(ElementId, ElementId)> {
    match e {
        Element::Class(c) => pair_with(named_ids(c.super_types@), id),
        _ => Seq::empty(),
    }
}

/// `(target class, (association, property index))` edges of one element:
/// one per `Named` property type of an association.
pub open spec fn element_assoc_edges(id: ElementId, e: Element) -> Seq<(ElementId, (ElementId, usize))> {
    match e {
        Element::Association(a) => assoc_edges_upto(id, a.properties@, a.properties.len() as int),
        _ => Seq::empty(),
    }
}

/// Association edges of the first `n` properties.
pub open spec fn assoc_edges_upto(id: ElementId, props: Seq<crate::nodes::Property>, n: int) -> Seq<
    (ElementId, (ElementId, usize)),
>
    decreases n,
{
    if n <= 0 {
        Seq::empty()
    } else {
        let prev = assoc_edges_upto(id, props, n - 1);
        match props[n - 1].type_expr {
            TypeExpr::Named { element, .. } => prev.push((element, (id, (n - 1) as usize))),
            _ => prev,
        }
    }
}

/// The edges of a chunk's first `n` elements (ids from the chunk's own id).
pub open spec fn chunk_edges<V>(
    ch: ModelChunk,
    n: int,
    f: spec_fn(ElementId, Element) -> Seq<(ElementId, V)>,
) -> Seq<(ElementId, V)>
    decreases n,
{
    if n <= 0 {
        Seq::empty()
    } else {
        chunk_edges(ch, n - 1, f) + f(
            ElementId { chunk_id: ch.chunk_id, local_idx: (n - 1) as u32 },
            ch.elements.items@[n - 1],
        )
    }
}

/// The edges of the first `n` chunks, chunk after chunk.
pub open spec fn model_edges<V>(
    chunks: Seq<ModelChunk>,
    n: int,
    f: spec_fn(ElementId, Element) -> Seq<(ElementId, V)>,
) -> Seq<(ElementId, V)>
    decreases n,
{
    if n <= 0 {
        Seq::empty()
    } else {
        model_edges(chunks, n - 1, f) + chunk_edges(
            chunks[n - 1],
            chunks[n - 1].elements.items.len() as int,
            f,
        )
    }
}

/// Grouping a concatenation groups each part.
pub proof fn lemma_grouped_concat<V>(a: Seq<(ElementId, V)>, b: Seq<(ElementId, V)>, key: ElementId)
    ensures
        grouped(a + b, key) == grouped(a, key) + grouped(b, key),
    decreases b.len(),
{
    if b.len() == 0 {
        assert(a + b =~= a);
        assert(grouped(b, key) =~= Seq::<V>::empty());
        assert(grouped(a, key) + grouped(b, key) =~= grouped(a, key));
    } else {
        assert((a + b).drop_last() =~= a + b.drop_last());
        assert((a + b).last() == b.last());
        lemma_grouped_concat(a, b.drop_last(), key);
    }
}

impl PureModel {
    /// `(supertype, class)` edges of the whole model.
    pub open spec fn specialization_edges(&self) -> Seq<(ElementId, ElementId)> {
        model_edges(
            self.chunks@,
            self.chunks.len() as int,
            |id: ElementId, e: Element| element_spec_edges(id, e),
        )
    }

    /// `(target class, (association, property index))` edges of the whole
    /// model.
    pub open spec fn association_edges(&self) -> Seq<(ElementId, (ElementId, usize))> {
        model_edges(
            self.chunks@,
            self.chunks.len() as int,
            |id: ElementId, e: Element| element_assoc_edges(id, e),
        )
    }
}

/// Adds one class's specialization edges.
fn add_class_edges(specs: &mut Vec<(ElementId, Vec<ElementId>)>, id: ElementId, c: &Class)
    requires
        distinct_keys(old(specs)@),
    ensures
        distinct_keys(final(specs)@),
        forall|k: ElementId|
            lookup(final(specs)@, k) == lookup(old(specs)@, k) + grouped(
                element_spec_edges(id, Element::Class(*c)),
                k,
            ),
{
    let ghost start = specs@;
    let sts = &c.super_types;
    let mut i: usize = 0;
    assert(sts@.take(0) =~= Seq::<TypeExpr>::empty());
    assert forall|k: ElementId| lookup(specs@, k) == lookup(start, k) + grouped(
        pair_with(named_ids(sts@.take(0)), id),
        k,
    ) by {
        assert(pair_with(named_ids(sts@.take(0)), id) =~= Seq::<(ElementId, ElementId)>::empty());
        assert(lookup(start, k) + Seq::<ElementId>::empty() =~= lookup(start, k));
    }
    while i < sts.len()
        invariant
            i <= sts.len(),
            distinct_keys(specs@),
            forall|k: ElementId|
                lookup(specs@, k) == lookup(start, k) + grouped(
                    pair_with(named_ids(sts@.take(i as int)), id),
                    k,
                ),
        decreases sts.len() - i,
    {
        proof {
            lemma_named_ids_step(sts@, i as int);
        }
        match &sts[i] {
            TypeExpr::Named { element, .. } => {
                let ghost before = specs@;
                add_entry(specs, *element, id);
                proof {
                    let pre = pair_with(named_ids(sts@.take(i as int)), id);
                    assert(sts@[i as int] == sts[i as int]);
                    assert(named_ids(sts@.take(i + 1)) == named_ids(sts@.take(i as int)).push(
                        *element,
                    ));
                    assert(pair_with(named_ids(sts@.take(i + 1)), id) =~= pre.push((*element, id)));
                    assert forall|k: ElementId| lookup(specs@, k) == lookup(start, k) + grouped(
                        pair_with(named_ids(sts@.take(i + 1)), id),
                        k,
                    ) by {
                        assert(pre.push((*element, id)).drop_last() =~= pre);
                        if k == *element {
                            assert(lookup(start, k) + grouped(pre, k).push(id) =~= (lookup(start, k)
                                + grouped(pre, k)).push(id));
                        }
                    }
                }
            },
            _ => {
                proof {
                    assert(named_ids(sts@.take(i + 1)) == named_ids(sts@.take(i as int)));
                }
            },
        }
        i = i + 1;
    }
    assert(sts@.take(i as int) =~= sts@);
}

/// Adds one association's edges.
fn add_association_edges(
    list: &mut Vec<(ElementId, Vec<(ElementId, usize)>)>,
    id: ElementId,
    a: &Association,
)
    requires
        distinct_keys(old(list)@),
    ensures
        distinct_keys(final(list)@),
        forall|k: ElementId|
            lookup(final(list)@, k) == lookup(old(list)@, k) + grouped(
                element_assoc_edges(id, Element::Association(*a)),
                k,
            ),
{
    let ghost start = list@;
    let props = &a.properties;
    let mut i: usize = 0;
    assert forall|k: ElementId| lookup(list@, k) == lookup(start, k) + grouped(
        assoc_edges_upto(id, props@, 0),
        k,
    ) by {
        assert(lookup(start, k) + Seq::<(ElementId, usize)>::empty() =~= lookup(start, k));
    }
    while i < props.len()
        invariant
            i <= props.len(),
            distinct_keys(list@),
            forall|k: ElementId|
                lookup(list@, k) == lookup(start, k) + grouped(
                    assoc_edges_upto(id, props@, i as int),
                    k,
                ),
        decreases props.len() - i,
    {
        match &props[i].type_expr {
            TypeExpr::Named { element, .. } => {
                add_entry(list, *element, (id, i));
                proof {
                    let pre = assoc_edges_upto(id, props@, i as int);
                    let nxt = assoc_edges_upto(id, props@, i + 1);
                    assert(nxt == pre.push((*element, (id, i))));
                    assert forall|k: ElementId| lookup(list@, k) == lookup(start, k) + grouped(nxt, k) by {
                        assert(nxt.drop_last() =~= pre);
                        if k == *element {
                            assert(lookup(start, k) + grouped(pre, k).push((id, i)) =~= (lookup(
                                start,
                                k,
                            ) + grouped(pre, k)).push((id, i)));
                        }
                    }
                }
            },
            _ => {},
        }
        i = i + 1;
    }
}

impl PureModel {
    /// Recomputes the reverse indexes from the chunks: for every class, one
    /// specialization entry per `Named` supertype; for every association,
    /// one entry per property with a `Named` type, on that type. Entries
    /// keep chunk, element and declaration order.
    #[verifier::loop_isolation(false)]
    pub fn rebuild_derived_indexes(&mut self)
        ensures
            final(self).chunks == old(self).chunks,
            final(self).global_packages == old(self).global_packages,
            final(self).root_package == old(self).root_package,
            distinct_keys(final(self).derived.specializations@),
            distinct_keys(final(self).derived.association_properties@),
            forall|k: ElementId|
                #[trigger] final(self).spec_specializations(k) == grouped(
                    old(self).specialization_edges(),
                    k,
                ),
            forall|k: ElementId|
                #[trigger] final(self).spec_association_properties(k) == grouped(
                    old(self).association_edges(),
                    k,
                ),
    {
        let mut specs: Vec<(ElementId, Vec<ElementId>)> = Vec::new();
        let mut assocs: Vec<(ElementId, Vec<(ElementId, usize)>)> = Vec::new();
        let ghost fs = |id: ElementId, e: Element| element_spec_edges(id, e);
        let ghost fa = |id: ElementId, e: Element| element_assoc_edges(id, e);
        let mut ci: usize = 0;
        while ci < self.chunks.len()
            invariant
                ci <= self.chunks.len(),
                distinct_keys(specs@),
                distinct_keys(assocs@),
                forall|k: ElementId| lookup(specs@, k) == grouped(model_edges(self.chunks@, ci as int, fs), k),
                forall|k: ElementId| lookup(assocs@, k) == grouped(model_edges(self.chunks@, ci as int, fa), k),
            decreases self.chunks.len() - ci,
        {
            let chunk = &self.chunks[ci];
            let n = chunk.elements.items.len();
            let ghost before_s = model_edges(self.chunks@, ci as int, fs);
            let ghost before_a = model_edges(self.chunks@, ci as int, fa);
            let mut li: usize = 0;
            while li < n
                invariant
                    li <= n,
                    n == chunk.elements.items.len(),
                    distinct_keys(specs@),
                    distinct_keys(assocs@),
                    forall|k: ElementId| lookup(specs@, k) == grouped(before_s + chunk_edges(*chunk, li as int, fs), k),
                    forall|k: ElementId| lookup(assocs@, k) == grouped(before_a + chunk_edges(*chunk, li as int, fa), k),
                decreases n - li,
            {
                let id = ElementId { chunk_id: chunk.chunk_id, local_idx: li as u32 };
                let ghost elem = chunk.elements.items@[li as int];
                assert(chunk_edges(*chunk, li + 1, fs) == chunk_edges(*chunk, li as int, fs) + fs(id, elem));
                assert(chunk_edges(*chunk, li + 1, fa) == chunk_edges(*chunk, li as int, fa) + fa(id, elem));
                let ghost ps = specs@;
                let ghost pa = assocs@;
                match &chunk.elements.items[li] {
                    Element::Class(c) => {
                        add_class_edges(&mut specs, id, c);
                        assert(fa(id, elem) =~= Seq::<(ElementId, (ElementId, usize))>::empty());
                    },
                    Element::Association(a) => {
                        add_association_edges(&mut assocs, id, a);
                        assert(fs(id, elem) =~= Seq::<(ElementId, ElementId)>::empty());
                    },
                    _ => {
                        assert(fs(id, elem) =~= Seq::<(ElementId, ElementId)>::empty());
                        assert(fa(id, elem) =~= Seq::<(ElementId, (ElementId, usize))>::empty());
                    },
                }
                proof {
                    assert forall|k: ElementId| lookup(specs@, k) == grouped(
                        before_s + chunk_edges(*chunk, li + 1, fs),
                        k,
                    ) by {
                        lemma_grouped_concat(before_s + chunk_edges(*chunk, li as int, fs), fs(id, elem), k);
                        assert(before_s + chunk_edges(*chunk, li + 1, fs) =~= (before_s + chunk_edges(
                            *chunk,
                            li as int,
                            fs,
                        )) + fs(id, elem));
                        if fs(id, elem).len() == 0 {
                            assert(grouped(fs(id, elem), k) =~= Seq::<ElementId>::empty());
                        }
                    }
                    assert forall|k: ElementId| lookup(assocs@, k) == grouped(
                        before_a + chunk_edges(*chunk, li + 1, fa),
                        k,
                    ) by {
                        lemma_grouped_concat(before_a + chunk_edges(*chunk, li as int, fa), fa(id, elem), k);
                        assert(before_a + chunk_edges(*chunk, li + 1, fa) =~= (before_a + chunk_edges(
                            *chunk,
                            li as int,
                            fa,
                        )) + fa(id, elem));
                        if fa(id, elem).len() == 0 {
                            assert(grouped(fa(id, elem), k) =~= Seq::<(ElementId, usize)>::empty());
                        }
                    }
                }
                li = li + 1;
            }
            assert(model_edges(self.chunks@, ci + 1, fs) == before_s + chunk_edges(*chunk, n as int, fs));
            assert(model_edges(self.chunks@, ci + 1, fa) == before_a + chunk_edges(*chunk, n as int, fa));
            ci = ci + 1;
        }
        self.derived = DerivedIndexes { specializations: specs, association_properties: assocs };
    }
}

impl Default for PureModel {
    /// The same as [`PureModel::new`].
    fn default() -> (r: Self)
        ensures
            r.wf(),
            r.children_resolvable(),
            r.global_packages.items@.len() == 1,
            r.root_package == PackageId(0),
            r.chunks@.len() == 0,
            r.derived.specializations@.len() == 0,
            r.derived.association_properties@.len() == 0,
    {
        PureModel::new()
    }
}


impl PureModel {
    /// Chunk `i` sits at position `i`, and no arena outgrows the `u32`
    /// local index.
    pub open spec fn chunks_numbered(&self) -> bool {
        forall|i: int|
            0 <= i < self.chunks.len() ==> (#[trigger] self.chunks@[i]).chunk_id == i
                && self.chunks@[i].elements.items.len() <= u32::MAX
    }

    /// The two models differ at most in their element payloads: same
    /// package tree, indexes, chunk numbering, nodes and arena sizes.
    pub open spec fn same_layout(&self, other: PureModel) -> bool {
        &&& other.global_packages == self.global_packages
        &&& other.root_package == self.root_package
        &&& other.derived == self.derived
        &&& other.chunks.len() == self.chunks.len()
        &&& forall|c: int|
            0 <= c < self.chunks.len() ==> {
                &&& (#[trigger] other.chunks@[c]).chunk_id == self.chunks@[c].chunk_id
                &&& other.chunks@[c].nodes == self.chunks@[c].nodes
                &&& other.chunks@[c].elements.items.len() == self.chunks@[c].elements.items.len()
            }
    }

    /// `id` is a class of this model that names `sup` among its supertypes.
    pub open spec fn declares_super(&self, id: ElementId, sup: ElementId) -> bool {
        &&& self.valid_id(id)
        &&& match self.elem(id) {
            Element::Class(c) => named_ids(c.super_types@).contains(sup),
            _ => false,
        }
    }

    /// Property `j` of association `a` is typed by the class `target`.
    pub open spec fn association_end_targets(&self, a: ElementId, j: usize, target: ElementId) -> bool {
        &&& self.valid_id(a)
        &&& match self.elem(a) {
            Element::Association(assoc) => (j as int) < assoc.properties.len() && match assoc.properties@[j as int].type_expr {
                TypeExpr::Named { element, .. } => element == target,
                _ => false,
            },
            _ => false,
        }
    }
}

/// A value is grouped under `key` exactly when an edge carries it there.
pub proof fn lemma_grouped_member<V>(edges: Seq<(ElementId, V)>, key: ElementId, v: V)
    ensures
        grouped(edges, key).contains(v) <==> edges.contains((key, v)),
    decreases edges.len(),
{
    if edges.len() > 0 {
        let d = edges.drop_last();
        let x = edges.last();
        lemma_grouped_member(d, key, v);
        let gp = grouped(d, key);
        let g = grouped(edges, key);
        assert(edges =~= d.push(x));
        if edges.contains((key, v)) {
            let i = choose|i: int| 0 <= i < edges.len() && edges[i] == (key, v);
            if i < d.len() {
                assert(d[i] == (key, v));
                assert(d.contains((key, v)));
                let k = choose|k: int| 0 <= k < gp.len() && gp[k] == v;
                if x.0 == key {
                    assert(g == gp.push(x.1));
                    assert(g[k] == v);
                } else {
                    assert(g == gp);
                }
                assert(g.contains(v));
            } else {
                assert(x == (key, v));
                assert(g == gp.push(v));
                assert(g[gp.len() as int] == v);
                assert(g.contains(v));
            }
        }
        if g.contains(v) {
            let k = choose|k: int| 0 <= k < g.len() && g[k] == v;
            if x.0 == key && k == gp.len() {
                assert(g == gp.push(x.1));
                assert(x == (key, v));
                assert(edges[edges.len() - 1] == (key, v));
            } else {
                if x.0 == key {
                    assert(g == gp.push(x.1));
                } else {
                    assert(g == gp);
                }
                assert(gp[k] == v);
                assert(gp.contains(v));
                let i = choose|i: int| 0 <= i < d.len() && d[i] == (key, v);
                assert(edges[i] == (key, v));
            }
            assert(edges.contains((key, v)));
        }
    }
}

/// An edge of a chunk's first `n` elements comes from one of them.
pub proof fn lemma_chunk_edges_member<V>(
    ch: ModelChunk,
    n: int,
    f: spec_fn(ElementId, Element) -> Seq<(ElementId, V)>,
    e: (ElementId, V),
)
    ensures
        chunk_edges(ch, n, f).contains(e) <==> exists|l: int|
            0 <= l < n && #[trigger] f(
                ElementId { chunk_id: ch.chunk_id, local_idx: l as u32 },
                ch.elements.items@[l],
            ).contains(e),
    decreases n,
{
    if n > 0 {
        lemma_chunk_edges_member(ch, n - 1, f, e);
        let prev = chunk_edges(ch, n - 1, f);
        let last = f(ElementId { chunk_id: ch.chunk_id, local_idx: (n - 1) as u32 }, ch.elements.items@[n - 1]);
        assert(chunk_edges(ch, n, f) == prev + last);
        if (prev + last).contains(e) {
            let i = choose|i: int| 0 <= i < (prev + last).len() && (prev + last)[i] == e;
            if i < prev.len() {
                assert(prev[i] == e);
            } else {
                assert(last[i - prev.len()] == e);
                assert(last.contains(e));
            }
        }
        if exists|l: int|
            0 <= l < n && #[trigger] f(
                ElementId { chunk_id: ch.chunk_id, local_idx: l as u32 },
                ch.elements.items@[l],
            ).contains(e) {
            let l = choose|l: int|
                0 <= l < n && #[trigger] f(
                    ElementId { chunk_id: ch.chunk_id, local_idx: l as u32 },
                    ch.elements.items@[l],
                ).contains(e);
            if l < n - 1 {
                let i = choose|i: int| 0 <= i < prev.len() && prev[i] == e;
                assert((prev + last)[i] == e);
            } else {
                let i = choose|i: int| 0 <= i < last.len() && last[i] == e;
                assert((prev + last)[prev.len() + i] == e);
            }
        }
    }
}

/// An edge of the first `n` chunks comes from an element of one of them.
pub proof fn lemma_model_edges_member<V>(
    chunks: Seq<ModelChunk>,
    n: int,
    f: spec_fn(ElementId, Element) -> Seq<(ElementId, V)>,
    e: (ElementId, V),
)
    requires
        n <= chunks.len(),
    ensures
        model_edges(chunks, n, f).contains(e) <==> exists|c: int|
            0 <= c < n && #[trigger] chunk_edges(
                chunks[c],
                chunks[c].elements.items.len() as int,
                f,
            ).contains(e),
    decreases n,
{
    if n > 0 {
        lemma_model_edges_member(chunks, n - 1, f, e);
        let prev = model_edges(chunks, n - 1, f);
        let last = chunk_edges(chunks[n - 1], chunks[n - 1].elements.items.len() as int, f);
        assert(model_edges(chunks, n, f) == prev + last);
        if (prev + last).contains(e) {
            let i = choose|i: int| 0 <= i < (prev + last).len() && (prev + last)[i] == e;
            if i < prev.len() {
                assert(prev[i] == e);
            } else {
                assert(last[i - prev.len()] == e);
                assert(last.contains(e));
            }
        }
        if exists|c: int|
            0 <= c < n && #[trigger] chunk_edges(
                chunks[c],
                chunks[c].elements.items.len() as int,
                f,
            ).contains(e) {
            let c = choose|c: int|
                0 <= c < n && #[trigger] chunk_edges(
                    chunks[c],
                    chunks[c].elements.items.len() as int,
                    f,
                ).contains(e);
            if c < n - 1 {
                let i = choose|i: int| 0 <= i < prev.len() && prev[i] == e;
                assert((prev + last)[i] == e);
            } else {
                let i = choose|i: int| 0 <= i < last.len() && last[i] == e;
                assert((prev + last)[prev.len() + i] == e);
            }
        }
    }
}

/// An edge of the model comes from the element at its id.
proof fn lemma_edges_member<V>(
    m: PureModel,
    f: spec_fn(ElementId, Element) -> Seq<(ElementId, V)>,
    e: (ElementId, V),
)
    requires
        m.chunks_numbered(),
    ensures
        model_edges(m.chunks@, m.chunks.len() as int, f).contains(e) <==> exists|id: ElementId|
            m.valid_id(id) && #[trigger] f(id, m.elem(id)).contains(e),
{
    let chunks = m.chunks@;
    lemma_model_edges_member(chunks, chunks.len() as int, f, e);
    if model_edges(chunks, chunks.len() as int, f).contains(e) {
        let c = choose|c: int|
            0 <= c < chunks.len() && #[trigger] chunk_edges(
                chunks[c],
                chunks[c].elements.items.len() as int,
                f,
            ).contains(e);
        let ch = chunks[c];
        lemma_chunk_edges_member(ch, ch.elements.items.len() as int, f, e);
        let l = choose|l: int|
            0 <= l < ch.elements.items.len() && #[trigger] f(
                ElementId { chunk_id: ch.chunk_id, local_idx: l as u32 },
                ch.elements.items@[l],
            ).contains(e);
        let id = ElementId { chunk_id: ch.chunk_id, local_idx: l as u32 };
        assert(ch.chunk_id == c);
        assert(m.valid_id(id));
        assert(m.elem(id) == ch.elements.items@[l]);
    }
    if exists|id: ElementId| m.valid_id(id) && #[trigger] f(id, m.elem(id)).contains(e) {
        let id = choose|id: ElementId| m.valid_id(id) && #[trigger] f(id, m.elem(id)).contains(e);
        let c = id.chunk_id as int;
        let ch = chunks[c];
        let l = id.local_idx as int;
        assert(ch.chunk_id == c);
        assert(ElementId { chunk_id: ch.chunk_id, local_idx: l as u32 } == id);
        lemma_chunk_edges_member(ch, ch.elements.items.len() as int, f, e);
        assert(chunk_edges(ch, ch.elements.items.len() as int, f).contains(e));
    }
}

/// Association edges of the first `n` properties point at their `Named`
/// types.
proof fn lemma_assoc_edges_member(
    id: ElementId,
    props: Seq<crate::nodes::Property>,
    n: int,
    e: (ElementId, (ElementId, usize)),
)
    requires
        n <= props.len(),
        props.len() <= usize::MAX,
    ensures
        assoc_edges_upto(id, props, n).contains(e) <==> (e.1.0 == id && (e.1.1 as int) < n && match props[e.1.1 as int].type_expr {
            TypeExpr::Named { element, .. } => element == e.0,
            _ => false,
        }),
    decreases n,
{
    if n > 0 {
        lemma_assoc_edges_member(id, props, n - 1, e);
        let prev = assoc_edges_upto(id, props, n - 1);
        match props[n - 1].type_expr {
            TypeExpr::Named { element, .. } => {
                let x = (element, (id, (n - 1) as usize));
                assert(assoc_edges_upto(id, props, n) == prev.push(x));
                if prev.push(x).contains(e) && !prev.contains(e) {
                    let i = choose|i: int| 0 <= i < prev.push(x).len() && prev.push(x)[i] == e;
                    if i < prev.len() {
                        assert(prev[i] == e);
                    }
                }
                if prev.contains(e) {
                    let i = choose|i: int| 0 <= i < prev.len() && prev[i] == e;
                    assert(prev.push(x)[i] == e);
                }
                if e == x {
                    assert(prev.push(x)[prev.len() as int] == e);
                }
            },
            _ => {},
        }
    }
}

/// After `rebuild_derived_indexes`, the reverse indexes are exact: the
/// specializations recorded for `sup` are the classes that name `sup` among
/// their supertypes, and the association ends recorded for `target` are
/// the association properties typed by `target`.
pub proof fn lemma_rebuilt_indexes_exact(
    before: PureModel,
    after: PureModel,
    sup: ElementId,
    x: ElementId,
    a: ElementId,
    j: usize,
)
    requires
        before.chunks_numbered(),
        after.chunks == before.chunks,
        forall|k: ElementId|
            #[trigger] after.spec_specializations(k) == grouped(before.specialization_edges(), k),
        forall|k: ElementId|
            #[trigger] after.spec_association_properties(k) == grouped(
                before.association_edges(),
                k,
            ),
    ensures
        after.spec_specializations(sup).contains(x) <==> after.declares_super(x, sup),
        after.spec_association_properties(sup).contains((a, j)) <==> after.association_end_targets(
            a,
            j,
            sup,
        ),
{
    let fs = |id: ElementId, e: Element| element_spec_edges(id, e);
    let fa = |id: ElementId, e: Element| element_assoc_edges(id, e);
    assert(before.specialization_edges() == model_edges(before.chunks@, before.chunks.len() as int, fs));
    assert(before.association_edges() == model_edges(before.chunks@, before.chunks.len() as int, fa));
    lemma_grouped_member(before.specialization_edges(), sup, x);
    lemma_grouped_member(before.association_edges(), sup, (a, j));
    lemma_edges_member(before, fs, (sup, x));
    lemma_edges_member(before, fa, (sup, (a, j)));
    if after.declares_super(x, sup) {
        match after.elem(x) {
            Element::Class(c) => {
                let ns = named_ids(c.super_types@);
                let i = choose|i: int| 0 <= i < ns.len() && ns[i] == sup;
                assert(pair_with(ns, x)[i] == (sup, x));
                assert(fs(x, before.elem(x)).contains((sup, x)));
            },
            _ => {},
        }
    }
    if exists|id: ElementId| before.valid_id(id) && #[trigger] fs(id, before.elem(id)).contains((sup, x)) {
        let id = choose|id: ElementId| before.valid_id(id) && #[trigger] fs(id, before.elem(id)).contains((sup, x));
        match before.elem(id) {
            Element::Class(c) => {
                let ns = named_ids(c.super_types@);
                let pw = pair_with(ns, id);
                let i = choose|i: int| 0 <= i < pw.len() && pw[i] == (sup, x);
                assert(pw[i] == (ns[i], id));
                assert(ns.contains(sup));
            },
            _ => {},
        }
    }
    if after.association_end_targets(a, j, sup) {
        match after.elem(a) {
            Element::Association(assoc) => {
                lemma_assoc_edges_member(a, assoc.properties@, assoc.properties.len() as int, (sup, (a, j)));
                assert(fa(a, before.elem(a)).contains((sup, (a, j))));
            },
            _ => {},
        }
    }
    if exists|id: ElementId| before.valid_id(id) && #[trigger] fa(id, before.elem(id)).contains((sup, (a, j))) {
        let id = choose|id: ElementId| before.valid_id(id) && #[trigger] fa(id, before.elem(id)).contains((sup, (a, j)));
        match before.elem(id) {
            Element::Association(assoc) => {
                lemma_assoc_edges_member(id, assoc.properties@, assoc.properties.len() as int, (sup, (a, j)));
            },
            _ => {},
        }
    }
}

} // verus!

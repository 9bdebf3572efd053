//! Translation between element / package identities and their fully
//! qualified paths (`["meta", "pure", "metamodel", "type", "Class"]`).

use vstd::prelude::*;
use vstd::string::StringExecFns;

use crate::ids::{ElementId, PackageId};
use crate::model::{names_view, PureModel};

verus! {

/// `::`-joined rendering of path segments.
pub open spec fn join_path(s: Seq<Seq<char>>) -> Seq<char>
    decreases s.len(),
{
    if s.len() == 0 {
        Seq::empty()
    } else if s.len() == 1 {
        s[0]
    } else {
        join_path(s.drop_last()) + "::"@ + s.last()
    }
}

/// Segment names from the root down to `pkg_id`; empty for the root.
pub fn package_path(model: &PureModel, pkg_id: PackageId) -> (r: Vec<String>)
    requires
        model.wf(),
        model.valid_pkg(pkg_id),
    ensures
        names_view(r@) == model.pkg_path(pkg_id),
{
    let mut segments: Vec<String> = Vec::new();
    let mut cur = pkg_id;
    assert(names_view(segments@) =~= Seq::<Seq<char>>::empty());
    loop
        invariant
            model.wf(),
            model.valid_pkg(cur),
            model.pkg_path(pkg_id) == model.pkg_path(cur) + names_view(segments@),
        decreases cur.0,
    {
        let pkg = model.get_package(cur);
        match pkg.parent {
            Some(parent_id) => {
                assert(parent_id.0 < cur.0);
                let ghost before = segments@;
                segments.insert(0, pkg.name.clone());
                assert(names_view(segments@) =~= seq![pkg.name@] + names_view(before));
                assert(model.pkg_path(cur) =~= model.pkg_path(parent_id).push(pkg.name@));
                assert(model.pkg_path(parent_id).push(pkg.name@) + names_view(before)
                    =~= model.pkg_path(parent_id) + names_view(segments@));
                cur = parent_id;
            },
            None => {
                assert(model.pkg_path(cur) =~= Seq::<Seq<char>>::empty());
                assert(model.pkg_path(pkg_id) =~= names_view(segments@));
                return segments;
            },
        }
    }
}

/// Renders a path in its `::`-separated form.
pub fn fqn_path_to_string(path: &[String]) -> (r: String)
    ensures
        r@ == join_path(names_view(path@)),
{
    let mut out = String::new();
    let mut i: usize = 0;
    while i < path.len()
        invariant
            i <= path@.len(),
            out@ == join_path(names_view(path@.take(i as int))),
        decreases path.len() - i,
    {
        let ghost pre = names_view(path@.take(i as int));
        assert(names_view(path@.take(i + 1)) =~= pre.push(path@[i as int]@));
        assert(names_view(path@.take(i + 1)).drop_last() =~= pre);
        if i > 0 {
            out.append("::");
        } else {
            assert(pre =~= Seq::<Seq<char>>::empty());
        }
        out.append(path[i].as_str());
        i = i + 1;
    }
    assert(path@.take(i as int) =~= path@);
    out
}

/// The element a path names; `None` for the empty path (the root package
/// is no element) or when a segment does not resolve.
pub fn resolve_fqn_path(model: &PureModel, path: &[String]) -> (r: Option<ElementId>)
    requires
        model.wf(),
        model.children_resolvable(),
    ensures
        r == model.spec_resolve_by_path(names_view(path@)),
{
    if path.len() == 0 {
        return None;
    }
    model.resolve_by_path(path)
}

impl PureModel {
    /// Package `p` lists `id` among its elements.
    pub open spec fn holds(&self, p: PackageId, id: ElementId) -> bool {
        self.pkg(p).children_elements@.contains(id)
    }

    /// Among the first `n` packages holding `id`, the first one with the
    /// longest path.
    pub open spec fn best_holder(&self, id: ElementId, n: nat) -> Option<PackageId>
        decreases n,
    {
        if n == 0 {
            None
        } else {
            let prev = self.best_holder(id, (n - 1) as nat);
            let p = PackageId((n - 1) as u32);
            if self.holds(p, id) && match prev {
                None => true,
                Some(b) => self.pkg_path(p).len() > self.pkg_path(b).len(),
            } {
                Some(p)
            } else {
                prev
            }
        }
    }

    /// The canonical path of element `id`: the path of the first package
    /// with the longest path among those holding it, else of its parent
    /// package; then the element's name.
    pub open spec fn element_path(&self, id: ElementId) -> Seq<Seq<char>> {
        match self.best_holder(id, self.global_packages.items.len() as nat) {
            Some(p) => self.pkg_path(p).push(self.node(id).name@),
            None => self.pkg_path(self.node(id).parent_package).push(self.node(id).name@),
        }
    }
}

/// The best holder is one of the packages considered, and holds the
/// element.
pub proof fn lemma_best_holder(m: PureModel, id: ElementId, n: nat)
    ensures
        m.best_holder(id, n) matches Some(p) ==> (p.0 as int) < n && m.holds(p, id),
        m.best_holder(id, n) is None ==> forall|q: int|
            0 <= q < n ==> !#[trigger] m.holds(PackageId(q as u32), id),
    decreases n,
{
    if n > 0 {
        lemma_best_holder(m, id, (n - 1) as nat);
        assert forall|q: int| 0 <= q < n && m.best_holder(id, n) is None implies !#[trigger] m.holds(
            PackageId(q as u32),
            id,
        ) by {
            if q == n - 1 {
            } else {
            }
        }
    }
}

fn contains_id(v: &Vec<ElementId>, x: ElementId) -> (r: bool)
    ensures
        r == v@.contains(x),
{
    let mut i: usize = 0;
    while i < v.len()
        invariant
            i <= v.len(),
            forall|j: int| 0 <= j < i ==> v@[j] != x,
        decreases v.len() - i,
    {
        if v[i] == x {
            return true;
        }
        i = i + 1;
    }
    false
}

/// The canonical path of element `id`: among the packages listing it, the
/// first with the longest path (so an element registered both at the root
/// and in its real package gets the real one); an element listed nowhere
/// gets its parent package's path. The element's name ends the path.
pub fn element_fqn_path(model: &PureModel, id: ElementId) -> (r: Vec<String>)
    requires
        model.wf(),
        model.valid_node(id),
        model.best_holder(id, model.global_packages.items.len() as nat) is None ==> model.valid_pkg(
            model.node(id).parent_package,
        ),
    ensures
        names_view(r@) == model.element_path(id),
{
    let node = model.get_node(id);
    let n = model.global_packages.len();
    let mut best: Option<Vec<String>> = None;
    let ghost mut best_pkg: Option<PackageId> = None;
    let mut k: u32 = 0;
    while k < n
        invariant
            model.wf(),
            n as int == model.global_packages.items.len(),
            k <= n,
            *node == model.node(id),
            best_pkg == model.best_holder(id, k as nat),
            match best {
                None => best_pkg is None,
                Some(b) => best_pkg matches Some(p) && names_view(b@) == model.pkg_path(p).push(
                    node.name@,
                ),
            },
        decreases n - k,
    {
        let pkg_id = PackageId(k);
        let pkg = model.get_package(pkg_id);
        if contains_id(&pkg.children_elements, id) {
            let mut path = package_path(model, pkg_id);
            let ghost pp = names_view(path@);
            path.push(node.name.clone());
            assert(names_view(path@) =~= pp.push(node.name@));
            let replace = match &best {
                None => true,
                Some(cur) => path.len() > cur.len(),
            };
            if replace {
                best = Some(path);
                proof {
                    best_pkg = Some(pkg_id);
                }
            }
        }
        k = k + 1;
    }
    match best {
        Some(b) => b,
        None => {
            let mut path = package_path(model, node.parent_package);
            let ghost pp = names_view(path@);
            path.push(node.name.clone());
            assert(names_view(path@) =~= pp.push(node.name@));
            path
        },
    }
}

impl PureModel {
    /// The path recorded for `id` once the first `k` packages have been
    /// considered: that of the first longest holder, with the element's
    /// name; none while no such package holds it.
    pub open spec fn indexed_path(&self, id: ElementId, k: nat) -> Option<Seq<Seq<char>>> {
        match self.best_holder(id, k) {
            Some(p) => Some(self.pkg_path(p).push(self.node(id).name@)),
            None => None,
        }
    }
}

/// The path recorded for `id` while package `k` is being processed:
/// the packages before it, plus package `k` once `id` has been met in it.
pub open spec fn staged_path(m: PureModel, met: Seq<ElementId>, k: nat, id: ElementId) -> Option<
    Seq<Seq<char>>,
> {
    if met.contains(id) {
        m.indexed_path(id, k + 1)
    } else {
        m.indexed_path(id, k)
    }
}

/// `s` maps element ids to paths: no id occurs twice.
pub open spec fn keys_distinct(s: Seq<(ElementId, Vec<String>)>) -> bool {
    forall|i: int, j: int| 0 <= i < s.len() && 0 <= j < s.len() && i != j ==> s[i].0 != s[j].0
}

fn dup_strings(v: &Vec<String>) -> (r: Vec<String>)
    ensures
        r@ == v@,
{
    let mut r: Vec<String> = Vec::new();
    let mut i: usize = 0;
    while i < v.len()
        invariant
            i <= v.len(),
            r@ == v@.take(i as int),
        decreases v.len() - i,
    {
        r.push(v[i].clone());
        assert(r@ =~= v@.take(i + 1));
        i = i + 1;
    }
    assert(v@.take(i as int) =~= v@);
    r
}

fn find_entry(s: &Vec<(ElementId, Vec<String>)>, id: ElementId) -> (r: Option<usize>)
    ensures
        match r {
            Some(i) => i < s@.len() && s@[i as int].0 == id,
            None => forall|i: int| 0 <= i < s@.len() ==> s@[i].0 != id,
        },
{
    let mut i: usize = 0;
    while i < s.len()
        invariant
            i <= s.len(),
            forall|j: int| 0 <= j < i ==> s@[j].0 != id,
        decreases s.len() - i,
    {
        if s[i].0 == id {
            return Some(i);
        }
        i = i + 1;
    }
    None
}

/// The canonical path of every element listed in some package, as an
/// association list with one entry per element (see [`element_fqn_path`]:
/// the first package with the longest path wins).
pub fn build_fqn_index(model: &PureModel) -> (r: Vec<(ElementId, Vec<String>)>)
    requires
        model.wf(),
        model.children_resolvable(),
    ensures
        keys_distinct(r@),
        forall|i: int|
            0 <= i < r@.len() ==> model.indexed_path(
                #[trigger] r@[i].0,
                model.global_packages.items.len() as nat,
            ) == Some(names_view(r@[i].1@)),
        forall|id: ElementId|
            #[trigger] model.indexed_path(id, model.global_packages.items.len() as nat) is Some
                ==> exists|i: int| 0 <= i < r@.len() && r@[i].0 == id,
{
    let mut out: Vec<(ElementId, Vec<String>)> = Vec::new();
    let n = model.global_packages.len();
    let mut k: u32 = 0;
    while k < n
        invariant
            model.wf(),
            model.children_resolvable(),
            n as int == model.global_packages.items.len(),
            k <= n,
            keys_distinct(out@),
            forall|i: int|
                0 <= i < out@.len() ==> model.indexed_path(#[trigger] out@[i].0, k as nat) == Some(
                    names_view(out@[i].1@),
                ),
            forall|id: ElementId|
                #[trigger] model.indexed_path(id, k as nat) is Some ==> exists|i: int|
                    0 <= i < out@.len() && out@[i].0 == id,
        decreases n - k,
    {
        let pkg_id = PackageId(k);
        let pkg = model.get_package(pkg_id);
        let prefix = package_path(model, pkg_id);
        let kids = &pkg.children_elements;
        let mut j: usize = 0;
        while j < kids.len()
            invariant
                model.wf(),
                model.children_resolvable(),
                n as int == model.global_packages.items.len(),
                k < n,
                *pkg == model.pkg(pkg_id),
                pkg_id == PackageId(k),
                names_view(prefix@) == model.pkg_path(pkg_id),
                kids == &pkg.children_elements,
                j <= kids@.len(),
                keys_distinct(out@),
                forall|i: int|
                    0 <= i < out@.len() ==> staged_path(
                        *model,
                        kids@.take(j as int),
                        k as nat,
                        #[trigger] out@[i].0,
                    ) == Some(names_view(out@[i].1@)),
                forall|id: ElementId|
                    #[trigger] staged_path(*model, kids@.take(j as int), k as nat, id) is Some
                        ==> exists|i: int| 0 <= i < out@.len() && out@[i].0 == id,
            decreases kids.len() - j,
        {
            let c = kids[j];
            assert(model.pkg(pkg_id).children_elements@[j as int] == c);
            assert(model.holds(pkg_id, c));
            assert(model.valid_node(model.pkg(pkg_id).children_elements@[j as int]));
            let node = model.get_node(c);
            let mut path = dup_strings(&prefix);
            path.push(node.name.clone());
            let ghost pathv = model.pkg_path(pkg_id).push(node.name@);
            assert(names_view(path@) =~= pathv);
            let ghost seen_before = kids@.take(j as int).contains(c);
            assert(kids@.take(j + 1) =~= kids@.take(j as int).push(c));
            assert(forall|x: ElementId| x != c ==> (kids@.take(j + 1).contains(x) <==> kids@.take(j as int).contains(x)));
            assert(kids@.take(j + 1)[j as int] == c);
            assert(kids@.take(j + 1).contains(c));
            let ghost old_out0 = out@;
            let ghost prev = model.best_holder(c, k as nat);
            assert(model.best_holder(c, (k + 1) as nat) == if match prev {
                None => true,
                Some(b) => model.pkg_path(pkg_id).len() > model.pkg_path(b).len(),
            } {
                Some(pkg_id)
            } else {
                prev
            });
            match find_entry(&out, c) {
                Some(i) => {
                    assert(staged_path(*model, kids@.take(j as int), k as nat, out@[i as int].0)
                        == Some(names_view(out@[i as int].1@)));
                    if out[i].1.len() >= path.len() {
                        // The recorded path is at least as long: keep it.
                        assert(names_view(out@[i as int].1@).len() == out@[i as int].1@.len());
                        assert(out@[i as int].0 == c);
                        assert(model.indexed_path(c, (k + 1) as nat) == Some(
                            names_view(out@[i as int].1@),
                        ));
                    } else {
                        let ghost old_out = out@;
                        assert(names_view(out@[i as int].1@).len() == out@[i as int].1@.len());
                        out[i] = (c, path);
                        assert(out@[i as int].0 == c);
                        assert forall|a: int, b: int|
                            0 <= a < out@.len() && 0 <= b < out@.len() && a != b implies out@[a].0
                            != out@[b].0 by {
                            assert(old_out[a].0 == out@[a].0);
                            assert(old_out[b].0 == out@[b].0);
                        }
                    }
                },
                None => {
                    proof {
                        if staged_path(*model, kids@.take(j as int), k as nat, c) is Some {
                            let i0 = choose|i0: int| 0 <= i0 < out@.len() && out@[i0].0 == c;
                            assert(out@[i0].0 != c);
                        }
                        assert(model.indexed_path(c, (k + 1) as nat) is Some);
                        assert(!seen_before);
                        assert(model.indexed_path(c, k as nat) is None);
                    }
                    out.push((c, path));
                    assert(out@[out@.len() - 1].0 == c);
                },
            }
            proof {
                assert forall|i0: int| 0 <= i0 < old_out0.len() implies exists|i: int|
                    0 <= i < out@.len() && out@[i].0 == #[trigger] old_out0[i0].0 by {
                    assert(out@[i0].0 == old_out0[i0].0);
                }
                assert forall|id: ElementId|
                    #[trigger] staged_path(*model, kids@.take(j + 1), k as nat, id) is Some implies exists|
                        i: int,
                    | 0 <= i < out@.len() && out@[i].0 == id by {
                    if id != c {
                        assert(staged_path(*model, kids@.take(j as int), k as nat, id) is Some);
                        let i0 = choose|i0: int| 0 <= i0 < old_out0.len() && old_out0[i0].0 == id;
                        assert(out@[i0].0 == old_out0[i0].0);
                    }
                }
            }
            j = j + 1;
        }
        assert(kids@.take(j as int) =~= kids@);
        assert forall|id: ElementId| #![trigger model.indexed_path(id, (k + 1) as nat)]
            model.indexed_path(id, (k + 1) as nat) == staged_path(*model, kids@, k as nat, id) by {
            if !kids@.contains(id) {
                assert(!model.holds(pkg_id, id));
                assert(model.best_holder(id, (k + 1) as nat) == model.best_holder(id, k as nat));
            }
        }
        k = k + 1;
    }
    out
}

/// The index is a cache of `element_fqn_path`: every element it holds is
/// mapped to the very path `element_fqn_path` computes for it, and every
/// element some package lists is in it.
pub proof fn lemma_index_matches_element_path(m: PureModel, id: ElementId)
    ensures
        m.indexed_path(id, m.global_packages.items.len() as nat) matches Some(p) ==> p
            == m.element_path(id),
        (exists|q: int|
            0 <= q < m.global_packages.items.len() && #[trigger] m.holds(PackageId(q as u32), id))
            ==> m.indexed_path(id, m.global_packages.items.len() as nat) is Some,
{
    let n = m.global_packages.items.len() as nat;
    lemma_best_holder(m, id, n);
}

} // verus!

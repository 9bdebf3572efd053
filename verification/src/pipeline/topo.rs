//! Ordering declarations so that every class comes after its supertypes.

use vstd::prelude::*;

use crate::ids::ElementId;
use crate::model::PureModel;
use crate::resolve::contains_id;
use crate::types::{SourceInfo, SourceInfoView};

verus! {

/// An error found while compiling.
#[derive(Debug)]
pub enum CompileError {
    /// The element takes part in a cycle of supertypes, or depends on one.
    CyclicInheritance { element: ElementId, element_name: String, source_info: SourceInfo },
}

/// View of a [`CompileError`].
pub enum CompileErrorView {
    CyclicInheritance { element: ElementId, element_name: Seq<char>, source_info: SourceInfoView },
}

impl View for CompileError {
    type V = CompileErrorView;

    open spec fn view(&self) -> CompileErrorView {
        match self {
            CompileError::CyclicInheritance { element, element_name, source_info } => {
                CompileErrorView::CyclicInheritance {
                    element: *element,
                    element_name: element_name@,
                    source_info: source_info@,
                }
            },
        }
    }
}

/// The views of a list of errors.
pub open spec fn errors_view(s: Seq<CompileError>) -> Seq<CompileErrorView> {
    s.map_values(|e: CompileError| e@)
}

/// A declaration: the element and the elements it depends on (its
/// supertypes that are declared too).
pub type Decl = (ElementId, Vec<ElementId>);

/// Dependency `k` of declaration `i`.
pub open spec fn dep(decls: Seq<Decl>, i: int, k: int) -> ElementId {
    decls[i].1@[k]
}

/// `d` is the id of some declaration.
pub open spec fn declared(decls: Seq<Decl>, d: ElementId) -> bool {
    exists|j: int| 0 <= j < decls.len() && #[trigger] decls[j].0 == d
}

/// No id is declared twice, and every dependency is declared.
pub open spec fn decls_wf(decls: Seq<Decl>) -> bool {
    &&& forall|i: int, j: int| 0 <= i < j < decls.len() ==> decls[i].0 != decls[j].0
    &&& forall|i: int, k: int|
        0 <= i < decls.len() && 0 <= k < decls[i].1.len() ==> declared(decls, #[trigger] dep(decls, i, k))
}

/// Every dependency of declaration `i` is in `s`.
pub open spec fn deps_in(decls: Seq<Decl>, i: int, s: Seq<ElementId>) -> bool {
    forall|k: int| 0 <= k < decls[i].1.len() ==> s.contains(#[trigger] dep(decls, i, k))
}

/// `order` lists declared ids without repeats, each after all of its
/// dependencies.
pub open spec fn deps_first(decls: Seq<Decl>, order: Seq<ElementId>) -> bool {
    &&& order.no_duplicates()
    &&& forall|p: int| 0 <= p < order.len() ==> declared(decls, #[trigger] order[p])
    &&& forall|i: int, p: int|
        0 <= i < decls.len() && 0 <= p < order.len() && #[trigger] order[p] == #[trigger] decls[i].0
            ==> deps_in(decls, i, order.take(p))
}

/// Every declaration left out of `order` has a dependency left out too.
pub open spec fn maximal(decls: Seq<Decl>, order: Seq<ElementId>) -> bool {
    forall|i: int|
        0 <= i < decls.len() && !order.contains(#[trigger] decls[i].0) ==> !deps_in(decls, i, order)
}

/// `s` is a non-empty set of declarations (by position), each depending
/// on a member of the set.
pub open spec fn cyclic_set(decls: Seq<Decl>, s: Set<int>) -> bool {
    &&& exists|x: int| #[trigger] s.contains(x)
    &&& forall|i: int| #[trigger] s.contains(i) ==> 0 <= i < decls.len()
    &&& forall|i: int| #[trigger] s.contains(i) ==> depends_into(decls, s, i)
}

/// Declaration `i` depends on a member of `s`.
pub open spec fn depends_into(decls: Seq<Decl>, s: Set<int>, i: int) -> bool {
    exists|k: int, j: int|
        #![trigger dep(decls, i, k), s.contains(j)]
        0 <= k < decls[i].1.len() && s.contains(j) && dep(decls, i, k) == decls[j].0
}

/// The dependencies form a cycle: some set of declarations each depend
/// on a member of the set.
pub open spec fn has_cycle(decls: Seq<Decl>) -> bool {
    exists|s: Set<int>| #[trigger] cyclic_set(decls, s)
}

/// The error for an element caught in a cycle.
pub open spec fn cyclic_view(m: PureModel, id: ElementId) -> CompileErrorView {
    CompileErrorView::CyclicInheritance {
        element: id,
        element_name: m.node(id).name@,
        source_info: m.node(id).source_info@,
    }
}

/// One error per declaration among the first `n` that `order` leaves
/// out, in declaration order.
pub open spec fn left_out(m: PureModel, decls: Seq<Decl>, order: Seq<ElementId>, n: int) -> Seq<
    CompileErrorView,
>
    decreases n,
{
    if n <= 0 {
        seq![]
    } else if order.contains(decls[n - 1].0) {
        left_out(m, decls, order, n - 1)
    } else {
        left_out(m, decls, order, n - 1).push(cyclic_view(m, decls[n - 1].0))
    }
}

/// The number of `true` entries.
pub open spec fn count_true(s: Seq<bool>) -> nat
    decreases s.len(),
{
    if s.len() == 0 {
        0
    } else {
        count_true(s.drop_last()) + if s.last() {
            1nat
        } else {
            0nat
        }
    }
}

proof fn lemma_count_set(s: Seq<bool>, i: int)
    requires
        0 <= i < s.len(),
        !s[i],
    ensures
        count_true(s.update(i, true)) == count_true(s) + 1,
    decreases s.len(),
{
    let t = s.update(i, true);
    if i == s.len() - 1 {
        assert(t.drop_last() =~= s.drop_last());
    } else {
        assert(t.drop_last() =~= s.drop_last().update(i, true));
        lemma_count_set(s.drop_last(), i);
    }
}

proof fn lemma_count_full(s: Seq<bool>)
    ensures
        count_true(s) <= s.len(),
        count_true(s) == s.len() <==> forall|i: int| 0 <= i < s.len() ==> s[i],
    decreases s.len(),
{
    if s.len() > 0 {
        lemma_count_full(s.drop_last());
        if forall|i: int| 0 <= i < s.len() ==> s[i] {
            assert forall|i: int| 0 <= i < s.drop_last().len() implies s.drop_last()[i] by {
                assert(s[i]);
            }
        }
        if count_true(s) == s.len() {
            assert forall|i: int| 0 <= i < s.len() implies s[i] by {
                if i < s.len() - 1 {
                    assert(s.drop_last()[i] == s[i]);
                }
            }
        }
    }
}

/// No member of a cyclic set appears in an order that puts dependencies
/// first.
proof fn lemma_cycle_excluded(decls: Seq<Decl>, order: Seq<ElementId>, s: Set<int>, p: int)
    requires
        deps_first(decls, order),
        0 <= p <= order.len(),
        cyclic_set(decls, s),
    ensures
        forall|i: int| #[trigger] s.contains(i) ==> !order.take(p).contains(decls[i].0),
    decreases p,
{
    if p > 0 {
        lemma_cycle_excluded(decls, order, s, p - 1);
        assert forall|i: int| #[trigger] s.contains(i) implies !order.take(p).contains(decls[i].0) by {
            if order.take(p).contains(decls[i].0) {
                let q = choose|q: int| 0 <= q < p && order.take(p)[q] == decls[i].0;
                if q < p - 1 {
                    assert(order.take(p - 1)[q] == decls[i].0);
                } else {
                    assert(order[p - 1] == decls[i].0);
                    assert(depends_into(decls, s, i));
                    let (k, j) = choose|k: int, j: int|
                        #![trigger dep(decls, i, k), s.contains(j)]
                        0 <= k < decls[i].1.len() && s.contains(j) && dep(decls, i, k) == decls[j].0;
                    assert(deps_in(decls, i, order.take(p - 1)));
                    assert(order.take(p - 1).contains(dep(decls, i, k)));
                    assert(order.take(p - 1).contains(decls[j].0));
                }
            }
        }
    }
}

/// Emitting declaration `i`, whose dependencies are all emitted, keeps
/// the order's invariants.
proof fn lemma_push_step(decls: Seq<Decl>, before: Seq<ElementId>, done: Seq<bool>, i: int)
    requires
        decls_wf(decls),
        0 <= i < decls.len(),
        done.len() == decls.len(),
        deps_first(decls, before),
        forall|j: int| 0 <= j < decls.len() ==> (done[j] <==> before.contains(#[trigger] decls[j].0)),
        !done[i],
        deps_in(decls, i, before),
        before.len() == count_true(done),
    ensures
        deps_first(decls, before.push(decls[i].0)),
        forall|j: int|
            0 <= j < decls.len() ==> (done.update(i, true)[j] <==> before.push(decls[i].0).contains(
                #[trigger] decls[j].0,
            )),
        before.push(decls[i].0).len() == count_true(done.update(i, true)),
        count_true(done.update(i, true)) <= decls.len(),
{
    let x = decls[i].0;
    let after = before.push(x);
    lemma_count_set(done, i);
    lemma_count_full(done.update(i, true));
    assert(!before.contains(x));
    assert(after.take(before.len() as int) =~= before);
    assert forall|a: int, b: int| 0 <= a < b < after.len() implies after[a] != after[b] by {
        if b == before.len() {
            assert(before.contains(before[a]));
        }
    }
    assert forall|p: int| 0 <= p < after.len() implies declared(decls, #[trigger] after[p]) by {
        if p == before.len() {
            assert(decls[i].0 == after[p]);
        } else {
            assert(after[p] == before[p]);
        }
    }
    assert forall|j: int, p: int|
        0 <= j < decls.len() && 0 <= p < after.len() && #[trigger] after[p] == #[trigger] decls[j].0 implies deps_in(
        decls,
        j,
        after.take(p),
    ) by {
        if p == before.len() {
            if j != i {
                if j < i {
                    assert(decls[j].0 != decls[i].0);
                } else {
                    assert(decls[i].0 != decls[j].0);
                }
            }
        } else {
            assert(after[p] == before[p]);
            assert(after.take(p) =~= before.take(p));
        }
    }
    assert forall|j: int| 0 <= j < decls.len() implies (done.update(i, true)[j] <==> after.contains(
        #[trigger] decls[j].0,
    )) by {
        if j != i {
            if after.contains(decls[j].0) && !before.contains(decls[j].0) {
                let q = choose|q: int| 0 <= q < after.len() && after[q] == decls[j].0;
                assert(q == before.len());
                if j < i {
                    assert(decls[j].0 != decls[i].0);
                } else {
                    assert(decls[i].0 != decls[j].0);
                }
            }
            if before.contains(decls[j].0) {
                let q = choose|q: int| 0 <= q < before.len() && before[q] == decls[j].0;
                assert(after[q] == decls[j].0);
            }
        } else {
            assert(after[before.len() as int] == x);
        }
    }
}

/// The declarations left out of a maximal order form a cyclic set.
proof fn lemma_left_out_cyclic(decls: Seq<Decl>, sorted: Seq<ElementId>, w: int)
    requires
        decls_wf(decls),
        maximal(decls, sorted),
        0 <= w < decls.len(),
        !sorted.contains(decls[w].0),
    ensures
        has_cycle(decls),
{
    let n = decls.len();
    let s = Set::new(|j: int| 0 <= j < n && !sorted.contains(decls[j].0));
    assert(s.contains(w));
    assert forall|a: int| #[trigger] s.contains(a) implies depends_into(decls, s, a) by {
        assert(!deps_in(decls, a, sorted));
        let k = choose|k: int| 0 <= k < decls[a].1.len() && !sorted.contains(#[trigger] dep(decls, a, k));
        assert(declared(decls, dep(decls, a, k)));
        let j = choose|j: int| 0 <= j < decls.len() && #[trigger] decls[j].0 == dep(decls, a, k);
        assert(s.contains(j));
    }
    assert(cyclic_set(decls, s));
}

/// The order falls short of the declarations exactly when there is a
/// cycle.
proof fn lemma_short_iff_cycle(decls: Seq<Decl>, sorted: Seq<ElementId>, done: Seq<bool>)
    requires
        decls_wf(decls),
        done.len() == decls.len(),
        deps_first(decls, sorted),
        maximal(decls, sorted),
        forall|j: int| 0 <= j < decls.len() ==> (done[j] <==> sorted.contains(#[trigger] decls[j].0)),
        sorted.len() == count_true(done),
    ensures
        sorted.len() < decls.len() <==> has_cycle(decls),
{
    lemma_count_full(done);
    if sorted.len() < decls.len() {
        let w = choose|j: int| 0 <= j < decls.len() && !done[j];
        assert(!sorted.contains(decls[w].0));
        lemma_left_out_cyclic(decls, sorted, w);
    }
    if has_cycle(decls) {
        let x = lemma_cycle_left_out(decls, sorted);
        assert(!done[x]);
    }
}

/// A member of a cyclic set is left out of an order that puts
/// dependencies first.
proof fn lemma_cycle_left_out(decls: Seq<Decl>, sorted: Seq<ElementId>) -> (x: int)
    requires
        deps_first(decls, sorted),
        has_cycle(decls),
    ensures
        0 <= x < decls.len(),
        !sorted.contains(decls[x].0),
{
    let s = choose|s: Set<int>| #[trigger] cyclic_set(decls, s);
    lemma_cycle_excluded(decls, sorted, s, sorted.len() as int);
    let x = choose|x: int| #[trigger] s.contains(x);
    assert(sorted.take(sorted.len() as int) =~= sorted);
    x
}

/// Whether every dependency of `deps` is in `done`.
fn all_in(deps: &Vec<ElementId>, done: &Vec<ElementId>) -> (r: bool)
    ensures
        r <==> forall|k: int| 0 <= k < deps.len() ==> done@.contains(#[trigger] deps@[k]),
{
    let mut k: usize = 0;
    while k < deps.len()
        invariant
            k <= deps.len(),
            forall|j: int| 0 <= j < k ==> done@.contains(#[trigger] deps@[j]),
        decreases deps.len() - k,
    {
        if !contains_id(done, deps[k]) {
            return false;
        }
        k = k + 1;
    }
    true
}

/// Orders the declarations so that each comes after everything it
/// depends on. Declarations are emitted, pass after pass, as soon as all
/// their dependencies are emitted; those that never can be take part in,
/// or depend on, a cycle, and each gets a
/// [`CompileError::CyclicInheritance`] (cyclic inheritance is a
/// compilation error). The order is short of the declarations exactly
/// when there is a cycle.
pub fn pass_topo_sort(decls: &[Decl], model: &PureModel) -> (r: (Vec<ElementId>, Vec<CompileError>))
    requires
        decls_wf(decls@),
        forall|i: int| 0 <= i < decls@.len() ==> model.valid_node(#[trigger] decls@[i].0),
    ensures
        deps_first(decls@, r.0@),
        maximal(decls@, r.0@),
        r.0.len() < decls@.len() <==> has_cycle(decls@),
        errors_view(r.1@) == left_out(*model, decls@, r.0@, decls@.len() as int),
{
    let n = decls.len();
    let mut sorted: Vec<ElementId> = Vec::new();
    let mut done: Vec<bool> = Vec::new();
    let mut i: usize = 0;
    while i < n
        invariant
            i <= n,
            n == decls@.len(),
            done@.len() == i,
            forall|j: int| 0 <= j < i ==> !done@[j],
        decreases n - i,
    {
        done.push(false);
        i = i + 1;
    }
    proof {
        assert(count_true(done@) == 0) by {
            lemma_count_zero(done@);
        }
    }
    loop
        invariant
            n == decls@.len(),
            decls_wf(decls@),
            done@.len() == n,
            deps_first(decls@, sorted@),
            forall|j: int| 0 <= j < n ==> (done@[j] <==> sorted@.contains(#[trigger] decls@[j].0)),
            sorted@.len() == count_true(done@),
        ensures
            n == decls@.len(),
            done@.len() == n,
            deps_first(decls@, sorted@),
            maximal(decls@, sorted@),
            forall|j: int| 0 <= j < n ==> (done@[j] <==> sorted@.contains(#[trigger] decls@[j].0)),
            sorted@.len() == count_true(done@),
        decreases n - sorted@.len(),
    {
        proof {
            lemma_count_full(done@);
        }
        let ghost start = sorted@;
        let mut progress = false;
        let mut i: usize = 0;
        while i < n
            invariant
                n == decls@.len(),
                decls_wf(decls@),
                i <= n,
                done@.len() == n,
                deps_first(decls@, sorted@),
                forall|j: int| 0 <= j < n ==> (done@[j] <==> sorted@.contains(#[trigger] decls@[j].0)),
                sorted@.len() == count_true(done@),
                count_true(done@) <= n,
                sorted@.len() >= start.len(),
                progress ==> sorted@.len() > start.len(),
                !progress ==> sorted@ == start,
                !progress ==> forall|j: int| 0 <= j < i && !done@[j] ==> !deps_in(decls@, j, sorted@),
            decreases n - i,
        {
            if !done[i] {
                let ok = all_in(&decls[i].1, &sorted);
                if ok {
                    proof {
                        assert forall|k: int| 0 <= k < decls@[i as int].1.len() implies sorted@.contains(
                            #[trigger] dep(decls@, i as int, k),
                        ) by {
                            assert(decls@[i as int].1@[k] == dep(decls@, i as int, k));
                        }
                        lemma_push_step(decls@, sorted@, done@, i as int);
                    }
                    sorted.push(decls[i].0);
                    done.set(i, true);
                    progress = true;
                } else {
                    proof {
                        let k = choose|k: int|
                            0 <= k < decls@[i as int].1.len() && !sorted@.contains(#[trigger] decls@[i as int].1@[k]);
                        assert(!sorted@.contains(dep(decls@, i as int, k)));
                    }
                }
            }
            i = i + 1;
        }
        if !progress {
            proof {
                assert forall|j: int|
                    0 <= j < decls@.len() && !sorted@.contains(#[trigger] decls@[j].0) implies !deps_in(
                    decls@,
                    j,
                    sorted@,
                ) by {
                    assert(!done@[j]);
                }
            }
            break;
        }
    }
    let mut errors: Vec<CompileError> = Vec::new();
    let mut i: usize = 0;
    while i < n
        invariant
            i <= n,
            n == decls@.len(),
            done@.len() == n,
            forall|j: int| 0 <= j < n ==> model.valid_node(#[trigger] decls@[j].0),
            forall|j: int| 0 <= j < n ==> (done@[j] <==> sorted@.contains(#[trigger] decls@[j].0)),
            errors_view(errors@) == left_out(*model, decls@, sorted@, i as int),
        decreases n - i,
    {
        if !done[i] {
            let id = decls[i].0;
            let node = model.get_node(id);
            let e = CompileError::CyclicInheritance {
                element: id,
                element_name: node.name.clone(),
                source_info: node.source_info.duplicate(),
            };
            let ghost before = errors@;
            errors.push(e);
            proof {
                assert(errors_view(errors@) =~= errors_view(before).push(cyclic_view(*model, id)));
            }
        } else {
            proof {
                assert(sorted@.contains(decls@[i as int].0));
            }
        }
        i = i + 1;
    }
    proof {
        lemma_short_iff_cycle(decls@, sorted@, done@);
    }
    (sorted, errors)
}

proof fn lemma_count_zero(s: Seq<bool>)
    requires
        forall|j: int| 0 <= j < s.len() ==> !s[j],
    ensures
        count_true(s) == 0,
    decreases s.len(),
{
    if s.len() > 0 {
        lemma_count_zero(s.drop_last());
    }
}

} // verus!

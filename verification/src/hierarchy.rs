//! Breadth-first walks of the class hierarchy: property lookups that
//! consider a class, its association ends and, level by level, its
//! supertypes.

use vstd::prelude::*;

use crate::ids::ElementId;
use crate::milestoning::str_eq;
use crate::model::{Element, PureModel};
use crate::nodes::{Class, Property, QualifiedProperty};
use crate::resolve::{lemma_named_ids_step, lemma_named_ids_take, named_ids};
use crate::types::TypeExpr;

verus! {

/// Number of `false` entries.
pub open spec fn count_false(s: Seq<bool>) -> nat
    decreases s.len(),
{
    if s.len() == 0 {
        0
    } else {
        count_false(s.drop_last()) + if s.last() {
            0nat
        } else {
            1nat
        }
    }
}

/// Number of `false` entries over all rows.
pub open spec fn unmarked(s: Seq<Seq<bool>>) -> nat
    decreases s.len(),
{
    if s.len() == 0 {
        0
    } else {
        unmarked(s.drop_last()) + count_false(s.last())
    }
}

/// Setting an unset flag lowers the count of unset flags by one.
pub proof fn lemma_count_false_set(s: Seq<bool>, i: int)
    requires
        0 <= i < s.len(),
        !s[i],
    ensures
        count_false(s.update(i, true)) + 1 == count_false(s),
    decreases s.len(),
{
    if i == s.len() - 1 {
        assert(s.update(i, true).drop_last() =~= s.drop_last());
    } else {
        assert(s.update(i, true).drop_last() =~= s.drop_last().update(i, true));
        lemma_count_false_set(s.drop_last(), i);
    }
}

/// How replacing one row changes the count of unset flags.
pub proof fn lemma_unmarked_update(s: Seq<Seq<bool>>, c: int, x: Seq<bool>)
    requires
        0 <= c < s.len(),
    ensures
        unmarked(s.update(c, x)) + count_false(s[c]) == unmarked(s) + count_false(x),
    decreases s.len(),
{
    if c == s.len() - 1 {
        assert(s.update(c, x).drop_last() =~= s.drop_last());
    } else {
        assert(s.update(c, x).drop_last() =~= s.drop_last().update(c, x));
        lemma_unmarked_update(s.drop_last(), c, x);
    }
}

/// Whether `id` is flagged.
pub open spec fn is_marked(marks: Seq<Seq<bool>>, id: ElementId) -> bool {
    marks[id.chunk_id as int][id.local_idx as int]
}

/// `marks` with `id` flagged.
pub open spec fn mark(marks: Seq<Seq<bool>>, id: ElementId) -> Seq<Seq<bool>> {
    marks.update(
        id.chunk_id as int,
        marks[id.chunk_id as int].update(id.local_idx as int, true),
    )
}

impl PureModel {
    /// `marks` holds one flag per element of each chunk.
    pub open spec fn marks_fit(&self, marks: Seq<Seq<bool>>) -> bool {
        &&& marks.len() == self.chunks.len()
        &&& forall|c: int|
            0 <= c < marks.len() ==> #[trigger] marks[c].len()
                == self.chunks@[c].elements.items.len()
    }

    /// No element flagged.
    pub open spec fn fresh_marks(&self) -> Seq<Seq<bool>> {
        Seq::new(
            self.chunks.len() as nat,
            |c: int| Seq::new(self.chunks@[c].elements.items.len() as nat, |l: int| false),
        )
    }

    /// `id` is a class of this model.
    pub open spec fn is_class(&self, id: ElementId) -> bool {
        self.valid_id(id) && self.elem(id) is Class
    }

    /// The `Named` supertypes of a class, in declaration order.
    pub open spec fn class_supers(&self, id: ElementId) -> Seq<ElementId> {
        match self.elem(id) {
            Element::Class(c) => named_ids(c.super_types@),
            _ => Seq::empty(),
        }
    }
}

/// Flagging an unflagged element keeps the rows in shape and lowers the
/// count of unflagged elements.
pub proof fn lemma_mark_decreases(m: PureModel, marks: Seq<Seq<bool>>, id: ElementId)
    requires
        m.marks_fit(marks),
        m.valid_id(id),
        !is_marked(marks, id),
    ensures
        m.marks_fit(mark(marks, id)),
        unmarked(mark(marks, id)) < unmarked(marks),
{
    let c = id.chunk_id as int;
    let l = id.local_idx as int;
    assert(marks[c].len() == m.chunks@[c].elements.items.len());
    lemma_count_false_set(marks[c], l);
    lemma_unmarked_update(marks, c, marks[c].update(l, true));
    let nm = mark(marks, id);
    assert forall|k: int| 0 <= k < nm.len() implies #[trigger] nm[k].len()
        == m.chunks@[k].elements.items.len() by {
        if k != c {
            assert(nm[k] == marks[k]);
        }
    }
}

/// The classes reached breadth-first from `queue`, in visiting order:
/// each class once, the first time it is dequeued; its `Named` supertypes
/// are enqueued behind what is already waiting. Elements that are not
/// classes are passed over.
pub open spec fn bfs_from(m: PureModel, queue: Seq<ElementId>, marks: Seq<Seq<bool>>) -> Seq<
    ElementId,
>
    decreases unmarked(marks), queue.len(),
    when m.marks_fit(marks)
{
    if queue.len() == 0 {
        Seq::empty()
    } else {
        let cur = queue[0];
        if !m.is_class(cur) || is_marked(marks, cur) {
            bfs_from(m, queue.drop_first(), marks)
        } else {
            proof {
                lemma_mark_decreases(m, marks, cur);
            }
            seq![cur] + bfs_from(m, queue.drop_first() + m.class_supers(cur), mark(marks, cur))
        }
    }
}

impl PureModel {
    /// The classes of `start`'s hierarchy in breadth-first order, `start`
    /// first when it is a class.
    pub open spec fn hierarchy_order(&self, start: ElementId) -> Seq<ElementId> {
        bfs_from(*self, seq![start], self.fresh_marks())
    }
}

/// Views of the flag rows.
pub open spec fn marks_view(v: Seq<Vec<bool>>) -> Seq<Seq<bool>> {
    v.map_values(|x: Vec<bool>| x@)
}

pub(crate) fn fresh_marks(model: &PureModel) -> (r: Vec<Vec<bool>>)
    ensures
        marks_view(r@) == model.fresh_marks(),
        model.marks_fit(marks_view(r@)),
{
    let mut r: Vec<Vec<bool>> = Vec::new();
    let mut c: usize = 0;
    while c < model.chunks.len()
        invariant
            c <= model.chunks.len(),
            r.len() == c,
            forall|k: int| 0 <= k < c ==> #[trigger] r@[k]@ == model.fresh_marks()[k],
        decreases model.chunks.len() - c,
    {
        let n = model.chunks[c].elements.items.len();
        let mut row: Vec<bool> = Vec::new();
        let mut l: usize = 0;
        while l < n
            invariant
                l <= n,
                row.len() == l,
                forall|j: int| 0 <= j < l ==> !(#[trigger] row@[j]),
            decreases n - l,
        {
            row.push(false);
            l = l + 1;
        }
        assert(row@ =~= model.fresh_marks()[c as int]);
        r.push(row);
        c = c + 1;
    }
    assert(marks_view(r@) =~= model.fresh_marks());
    r
}

pub(crate) fn push_class_supers(queue: &mut Vec<ElementId>, c: &Class)
    ensures
        final(queue)@ == old(queue)@ + named_ids(c.super_types@),
{
    let ghost start = queue@;
    let sts = &c.super_types;
    let mut i: usize = 0;
    assert(sts@.take(0) =~= Seq::<TypeExpr>::empty());
    while i < sts.len()
        invariant
            i <= sts.len(),
            queue@ == start + named_ids(sts@.take(i as int)),
        decreases sts.len() - i,
    {
        proof {
            lemma_named_ids_step(sts@, i as int);
        }
        match &sts[i] {
            TypeExpr::Named { element, .. } => {
                queue.push(*element);
            },
            _ => {},
        }
        i = i + 1;
    }
    assert(sts@.take(i as int) =~= sts@);
}

/// `e` is an association end of `m` whose opposite property is named
/// `name`.
pub open spec fn opposite_end_named(m: PureModel, e: (ElementId, usize), name: Seq<char>) -> bool {
    &&& e.1 <= 1
    &&& m.valid_id(e.0)
    &&& match m.elem(e.0) {
        Element::Association(a) => (1 - e.1) < a.properties.len() && a.properties@[1 - e.1].name@
            == name,
        _ => false,
    }
}

/// Some property in `props` is named `name`.
pub open spec fn some_property_named(props: Seq<Property>, name: Seq<char>) -> bool {
    exists|i: int| 0 <= i < props.len() && (#[trigger] props[i]).name@ == name
}

/// Some qualified property in `qps` is named `name`.
pub open spec fn some_qualified_named(qps: Seq<QualifiedProperty>, name: Seq<char>) -> bool {
    exists|i: int| 0 <= i < qps.len() && (#[trigger] qps[i]).name@ == name
}

/// Class `id` declares, or gets from an association, a property or
/// qualified property named `name`.
pub open spec fn class_has_named(m: PureModel, id: ElementId, name: Seq<char>) -> bool {
    match m.elem(id) {
        Element::Class(c) => {
            ||| some_property_named(c.properties@, name)
            ||| some_qualified_named(c.qualified_properties@, name)
            ||| exists|j: int|
                0 <= j < m.spec_association_properties(id).len() && opposite_end_named(
                    m,
                    #[trigger] m.spec_association_properties(id)[j],
                    name,
                )
        },
        _ => false,
    }
}

fn has_property_named(props: &Vec<Property>, name: &str) -> (r: bool)
    ensures
        r == some_property_named(props@, name@),
{
    let mut i: usize = 0;
    while i < props.len()
        invariant
            i <= props.len(),
            forall|j: int| 0 <= j < i ==> (#[trigger] props@[j]).name@ != name@,
        decreases props.len() - i,
    {
        if str_eq(props[i].name.as_str(), name) {
            return true;
        }
        i = i + 1;
    }
    false
}

fn has_qualified_named(qps: &Vec<QualifiedProperty>, name: &str) -> (r: bool)
    ensures
        r == some_qualified_named(qps@, name@),
{
    let mut i: usize = 0;
    while i < qps.len()
        invariant
            i <= qps.len(),
            forall|j: int| 0 <= j < i ==> (#[trigger] qps@[j]).name@ != name@,
        decreases qps.len() - i,
    {
        if str_eq(qps[i].name.as_str(), name) {
            return true;
        }
        i = i + 1;
    }
    false
}

fn has_opposite_end_named(model: &PureModel, id: ElementId, name: &str) -> (r: bool)
    ensures
        r == exists|j: int|
            0 <= j < model.spec_association_properties(id).len() && opposite_end_named(
                *model,
                #[trigger] model.spec_association_properties(id)[j],
                name@,
            ),
{
    let ends = model.association_properties(id);
    let mut i: usize = 0;
    while i < ends.len()
        invariant
            ends@ == model.spec_association_properties(id),
            i <= ends.len(),
            forall|j: int| 0 <= j < i ==> !opposite_end_named(*model, #[trigger] ends@[j], name@),
        decreases ends.len() - i,
    {
        let (assoc_id, self_idx) = ends[i];
        if self_idx <= 1 {
            match model.try_get_element(assoc_id) {
                Some(Element::Association(a)) => {
                    let other = 1 - self_idx;
                    if other < a.properties.len() && str_eq(a.properties[other].name.as_str(), name) {
                        return true;
                    }
                },
                _ => {},
            }
        }
        i = i + 1;
    }
    false
}

/// Whether `class_id`, an association end attached to it, or any class
/// in its supertype hierarchy declares a property or qualified property
/// named `name`.
pub fn class_has_property_in_hierarchy(model: &PureModel, class_id: ElementId, name: &str) -> (r:
    bool)
    ensures
        r == exists|i: int|
            0 <= i < model.hierarchy_order(class_id).len() && class_has_named(
                *model,
                #[trigger] model.hierarchy_order(class_id)[i],
                name@,
            ),
{
    let mut marks = fresh_marks(model);
    let mut queue: Vec<ElementId> = Vec::new();
    queue.push(class_id);
    let mut head: usize = 0;
    let ghost mut seen: Seq<ElementId> = Seq::empty();
    assert(queue@.skip(0) =~= seq![class_id]);
    while head < queue.len()
        invariant
            model.marks_fit(marks_view(marks@)),
            head <= queue.len(),
            model.hierarchy_order(class_id) == seen + bfs_from(
                *model,
                queue@.skip(head as int),
                marks_view(marks@),
            ),
            forall|i: int| 0 <= i < seen.len() ==> !class_has_named(*model, #[trigger] seen[i], name@),
        decreases unmarked(marks_view(marks@)), queue.len() - head,
    {
        let cur = queue[head];
        let ghost q = queue@.skip(head as int);
        let ghost mv = marks_view(marks@);
        assert(q[0] == cur);
        assert(q.drop_first() =~= queue@.skip(head + 1));
        head = head + 1;
        match model.try_get_element(cur) {
            Some(Element::Class(c)) => {
                let ci = cur.chunk_id as usize;
                let li = cur.local_idx as usize;
                assert(mv[ci as int].len() == model.chunks@[ci as int].elements.items.len());
                if marks[ci][li] {
                    assert(is_marked(mv, cur));
                    continue;
                }
                proof {
                    lemma_mark_decreases(*model, mv, cur);
                }
                marks[ci][li] = true;
                assert(marks_view(marks@) =~= mark(mv, cur));
                if has_property_named(&c.properties, name) || has_qualified_named(
                    &c.qualified_properties,
                    name,
                ) || has_opposite_end_named(model, cur, name) {
                    assert(model.hierarchy_order(class_id)[seen.len() as int] == cur);
                    return true;
                }
                let ghost before = queue@;
                push_class_supers(&mut queue, c);
                proof {
                    assert(queue@.skip(head as int) =~= q.drop_first() + model.class_supers(cur));
                    assert(seen.push(cur) + bfs_from(*model, queue@.skip(head as int), marks_view(marks@))
                        =~= seen + (seq![cur] + bfs_from(*model, queue@.skip(head as int), marks_view(marks@))));
                    seen = seen.push(cur);
                }
            },
            _ => {
                assert(!model.is_class(cur));
            },
        }
    }
    assert(queue@.skip(head as int) =~= Seq::<ElementId>::empty());
    assert(model.hierarchy_order(class_id) =~= seen);
    false
}

/// The classes of `start`'s hierarchy in breadth-first order.
pub fn hierarchy_classes(model: &PureModel, start: ElementId) -> (r: Vec<ElementId>)
    ensures
        r@ == model.hierarchy_order(start),
{
    let mut marks = fresh_marks(model);
    let mut queue: Vec<ElementId> = Vec::new();
    queue.push(start);
    let mut head: usize = 0;
    let mut out: Vec<ElementId> = Vec::new();
    assert(queue@.skip(0) =~= seq![start]);
    while head < queue.len()
        invariant
            model.marks_fit(marks_view(marks@)),
            head <= queue.len(),
            model.hierarchy_order(start) == out@ + bfs_from(
                *model,
                queue@.skip(head as int),
                marks_view(marks@),
            ),
        decreases unmarked(marks_view(marks@)), queue.len() - head,
    {
        let cur = queue[head];
        let ghost q = queue@.skip(head as int);
        let ghost mv = marks_view(marks@);
        assert(q[0] == cur);
        assert(q.drop_first() =~= queue@.skip(head + 1));
        head = head + 1;
        match model.try_get_element(cur) {
            Some(Element::Class(c)) => {
                let ci = cur.chunk_id as usize;
                let li = cur.local_idx as usize;
                assert(mv[ci as int].len() == model.chunks@[ci as int].elements.items.len());
                if marks[ci][li] {
                    assert(is_marked(mv, cur));
                    continue;
                }
                proof {
                    lemma_mark_decreases(*model, mv, cur);
                }
                marks[ci][li] = true;
                assert(marks_view(marks@) =~= mark(mv, cur));
                let ghost before = out@;
                out.push(cur);
                push_class_supers(&mut queue, c);
                proof {
                    assert(queue@.skip(head as int) =~= q.drop_first() + model.class_supers(cur));
                    assert(out@ + bfs_from(*model, queue@.skip(head as int), marks_view(marks@))
                        =~= before + (seq![cur] + bfs_from(
                        *model,
                        queue@.skip(head as int),
                        marks_view(marks@),
                    )));
                }
            },
            _ => {
                assert(!model.is_class(cur));
            },
        }
    }
    assert(queue@.skip(head as int) =~= Seq::<ElementId>::empty());
    assert(model.hierarchy_order(start) =~= out@);
    out
}

/// Every element of a breadth-first order is a class.
pub proof fn lemma_bfs_classes(m: PureModel, queue: Seq<ElementId>, marks: Seq<Seq<bool>>)
    requires
        m.marks_fit(marks),
    ensures
        forall|i: int|
            0 <= i < bfs_from(m, queue, marks).len() ==> m.is_class(
                #[trigger] bfs_from(m, queue, marks)[i],
            ),
    decreases unmarked(marks), queue.len(),
{
    if queue.len() > 0 {
        let cur = queue[0];
        if !m.is_class(cur) || is_marked(marks, cur) {
            lemma_bfs_classes(m, queue.drop_first(), marks);
            assert(bfs_from(m, queue, marks) == bfs_from(m, queue.drop_first(), marks));
        } else {
            lemma_mark_decreases(m, marks, cur);
            let rest = queue.drop_first() + m.class_supers(cur);
            lemma_bfs_classes(m, rest, mark(marks, cur));
            let r = bfs_from(m, queue, marks);
            assert(r == seq![cur] + bfs_from(m, rest, mark(marks, cur)));
            assert forall|i: int| 0 <= i < r.len() implies m.is_class(#[trigger] r[i]) by {
                if i > 0 {
                    assert(r[i] == bfs_from(m, rest, mark(marks, cur))[i - 1]);
                }
            }
        }
    }
}

/// A breadth-first order from `queue` lists only classes that `marks`
/// leaves unflagged, and lists none of them twice.
pub proof fn lemma_bfs_distinct(m: PureModel, queue: Seq<ElementId>, marks: Seq<Seq<bool>>)
    requires
        m.marks_fit(marks),
    ensures
        forall|i: int|
            0 <= i < bfs_from(m, queue, marks).len() ==> m.is_class(
                #[trigger] bfs_from(m, queue, marks)[i],
            ) && !is_marked(marks, bfs_from(m, queue, marks)[i]),
        forall|i: int, j: int|
            0 <= i < j < bfs_from(m, queue, marks).len() ==> bfs_from(m, queue, marks)[i]
                != bfs_from(m, queue, marks)[j],
    decreases unmarked(marks), queue.len(),
{
    if queue.len() > 0 {
        let cur = queue[0];
        if !m.is_class(cur) || is_marked(marks, cur) {
            lemma_bfs_distinct(m, queue.drop_first(), marks);
            assert(bfs_from(m, queue, marks) == bfs_from(m, queue.drop_first(), marks));
        } else {
            lemma_mark_decreases(m, marks, cur);
            let nm = mark(marks, cur);
            let rest = queue.drop_first() + m.class_supers(cur);
            lemma_bfs_distinct(m, rest, nm);
            let tail = bfs_from(m, rest, nm);
            let r = bfs_from(m, queue, marks);
            assert(r == seq![cur] + tail);
            let c = cur.chunk_id as int;
            let l = cur.local_idx as int;
            assert(marks[c].len() == m.chunks@[c].elements.items.len());
            assert(is_marked(nm, cur));
            assert forall|k: int| 0 <= k < tail.len() implies tail[k] != cur && !is_marked(
                marks,
                tail[k],
            ) by {
                let x = tail[k];
                assert(m.is_class(x) && !is_marked(nm, x));
                let xc = x.chunk_id as int;
                let xl = x.local_idx as int;
                assert(marks[xc].len() == m.chunks@[xc].elements.items.len());
                if xc == c && xl == l {
                    assert(x == cur);
                } else if xc == c {
                    assert(nm[xc] == marks[c].update(l, true));
                } else {
                    assert(nm[xc] == marks[xc]);
                }
            }
            assert forall|i: int| 0 <= i < r.len() implies m.is_class(#[trigger] r[i]) && !is_marked(
                marks,
                r[i],
            ) by {
                if i > 0 {
                    assert(r[i] == tail[i - 1]);
                }
            }
            assert forall|i: int, j: int| 0 <= i < j < r.len() implies r[i] != r[j] by {
                assert(r[j] == tail[j - 1]);
                if i > 0 {
                    assert(r[i] == tail[i - 1]);
                }
            }
        }
    }
}

/// A fresh set of flags fits the model.
pub proof fn lemma_fresh_marks_fit(m: PureModel)
    ensures
        m.marks_fit(m.fresh_marks()),
{
}

/// The hierarchy of a class starts with the class itself, and lists every
/// class of it once: a class reached along several supertype paths (a
/// diamond) is visited a single time.
pub proof fn lemma_hierarchy_order_shape(m: PureModel, start: ElementId)
    ensures
        m.is_class(start) ==> m.hierarchy_order(start).len() > 0 && m.hierarchy_order(start)[0]
            == start,
        forall|i: int|
            0 <= i < m.hierarchy_order(start).len() ==> m.is_class(
                #[trigger] m.hierarchy_order(start)[i],
            ),
        forall|i: int, j: int|
            0 <= i < j < m.hierarchy_order(start).len() ==> m.hierarchy_order(start)[i]
                != m.hierarchy_order(start)[j],
{
    let fm = m.fresh_marks();
    lemma_fresh_marks_fit(m);
    lemma_bfs_distinct(m, seq![start], fm);
    if m.is_class(start) {
        let c = start.chunk_id as int;
        assert(!is_marked(fm, start));
        assert(m.hierarchy_order(start) == seq![start] + bfs_from(
            m,
            seq![start].drop_first() + m.class_supers(start),
            mark(fm, start),
        ));
    }
}

/// The properties declared on the classes of `order`, class by class.
pub open spec fn declared_props(m: PureModel, order: Seq<ElementId>) -> Seq<Property>
    decreases order.len(),
{
    if order.len() == 0 {
        Seq::empty()
    } else {
        declared_props(m, order.drop_last()) + match m.elem(order.last()) {
            Element::Class(c) => c.properties@,
            _ => Seq::empty(),
        }
    }
}

/// `s` with every property whose name occurred earlier dropped.
pub open spec fn first_of_each_name(s: Seq<Property>) -> Seq<Property>
    decreases s.len(),
{
    if s.len() == 0 {
        Seq::empty()
    } else {
        let prev = first_of_each_name(s.drop_last());
        if some_property_named(prev, s.last().name@) {
            prev
        } else {
            prev.push(s.last())
        }
    }
}

/// Dereferenced view of a list of property references.
pub open spec fn deref_props(v: Seq<&Property>) -> Seq<Property> {
    v.map_values(|p: &Property| *p)
}

fn refs_have_name(v: &Vec<&Property>, name: &str) -> (r: bool)
    ensures
        r == some_property_named(deref_props(v@), name@),
{
    let mut i: usize = 0;
    while i < v.len()
        invariant
            i <= v.len(),
            forall|j: int| 0 <= j < i ==> (#[trigger] deref_props(v@)[j]).name@ != name@,
        decreases v.len() - i,
    {
        if str_eq(v[i].name.as_str(), name) {
            assert(deref_props(v@)[i as int] == *v@[i as int]);
            return true;
        }
        i = i + 1;
    }
    false
}

/// Every property declared on `eid` or a class of its supertype hierarchy,
/// breadth-first, keeping the first property of each name (a subclass
/// shadows what it inherits). Association ends are not included.
pub fn all_declared_properties_with_inheritance<'m>(eid: ElementId, model: &'m PureModel) -> (r:
    Vec<&'m Property>)
    requires
        model.lookup_defined(eid),
    ensures
        deref_props(r@) == first_of_each_name(declared_props(*model, model.hierarchy_order(eid))),
{
    let order = hierarchy_classes(model, eid);
    proof {
        lemma_bfs_classes(*model, seq![eid], model.fresh_marks());
    }
    let mut out: Vec<&'m Property> = Vec::new();
    let mut k: usize = 0;
    assert(order@.take(0) =~= Seq::<ElementId>::empty());
    assert(deref_props(out@) =~= Seq::<Property>::empty());
    while k < order.len()
        invariant
            k <= order.len(),
            forall|i: int| 0 <= i < order@.len() ==> model.is_class(#[trigger] order@[i]),
            deref_props(out@) == first_of_each_name(declared_props(*model, order@.take(k as int))),
        decreases order.len() - k,
    {
        let ghost pre = declared_props(*model, order@.take(k as int));
        assert(order@.take(k + 1).drop_last() =~= order@.take(k as int));
        match model.try_get_element(order[k]) {
            Some(Element::Class(c)) => {
                let props = &c.properties;
                let mut i: usize = 0;
                assert(pre + props@.take(0) =~= pre);
                while i < props.len()
                    invariant
                        i <= props.len(),
                        deref_props(out@) == first_of_each_name(pre + props@.take(i as int)),
                    decreases props.len() - i,
                {
                    let p = &props[i];
                    assert((pre + props@.take(i + 1)).drop_last() =~= pre + props@.take(i as int));
                    assert((pre + props@.take(i + 1)).last() == props@[i as int]);
                    if !refs_have_name(&out, p.name.as_str()) {
                        out.push(p);
                        assert(deref_props(out@) =~= first_of_each_name(pre + props@.take(i as int)).push(*p));
                    }
                    i = i + 1;
                }
                assert(props@.take(i as int) =~= props@);
            },
            _ => {
                assert(model.is_class(order@[k as int]));
            },
        }
        k = k + 1;
    }
    assert(order@.take(k as int) =~= order@);
    out
}

impl PureModel {
    /// Every element a breadth-first lookup from `start` dequeues is
    /// allocated: `start` itself and the supertypes of every class reached.
    pub open spec fn lookup_defined(&self, start: ElementId) -> bool {
        &&& self.valid_id(start)
        &&& forall|i: int, k: int|
            0 <= i < self.hierarchy_order(start).len() && 0 <= k < self.class_supers(
                self.hierarchy_order(start)[i],
            ).len() ==> self.valid_id(
                #[trigger] self.class_supers(#[trigger] self.hierarchy_order(start)[i])[k],
            )
    }
}

/// `i` is the first position of a property named `name`.
pub open spec fn first_prop_at(props: Seq<Property>, name: Seq<char>, i: int) -> bool {
    &&& 0 <= i < props.len()
    &&& props[i].name@ == name
    &&& forall|j: int| 0 <= j < i ==> (#[trigger] props[j]).name@ != name
}

/// `i` is the first position of a qualified property named `name`.
pub open spec fn first_qualified_at(qps: Seq<QualifiedProperty>, name: Seq<char>, i: int) -> bool {
    &&& 0 <= i < qps.len()
    &&& qps[i].name@ == name
    &&& forall|j: int| 0 <= j < i ==> (#[trigger] qps[j]).name@ != name
}

/// `j` is the first association end of `id` whose opposite property is
/// named `name`.
pub open spec fn first_end_at(m: PureModel, id: ElementId, name: Seq<char>, j: int) -> bool {
    let ends = m.spec_association_properties(id);
    &&& 0 <= j < ends.len()
    &&& opposite_end_named(m, ends[j], name)
    &&& forall|k: int| 0 <= k < j ==> !opposite_end_named(m, #[trigger] ends[k], name)
}

fn find_prop_index(props: &Vec<Property>, name: &str) -> (r: Option<usize>)
    ensures
        match r {
            Some(i) => first_prop_at(props@, name@, i as int),
            None => !some_property_named(props@, name@),
        },
{
    let mut i: usize = 0;
    while i < props.len()
        invariant
            i <= props.len(),
            forall|j: int| 0 <= j < i ==> (#[trigger] props@[j]).name@ != name@,
        decreases props.len() - i,
    {
        if str_eq(props[i].name.as_str(), name) {
            return Some(i);
        }
        i = i + 1;
    }
    None
}

fn find_qualified_index(qps: &Vec<QualifiedProperty>, name: &str) -> (r: Option<usize>)
    ensures
        match r {
            Some(i) => first_qualified_at(qps@, name@, i as int),
            None => !some_qualified_named(qps@, name@),
        },
{
    let mut i: usize = 0;
    while i < qps.len()
        invariant
            i <= qps.len(),
            forall|j: int| 0 <= j < i ==> (#[trigger] qps@[j]).name@ != name@,
        decreases qps.len() - i,
    {
        if str_eq(qps[i].name.as_str(), name) {
            return Some(i);
        }
        i = i + 1;
    }
    None
}

/// The opposite property of the first association end of `id` whose
/// opposite property is named `name`.
fn find_opposite_end<'m>(model: &'m PureModel, id: ElementId, name: &str) -> (r: Option<
    &'m Property,
>)
    ensures
        match r {
            Some(p) => exists|j: int|
                first_end_at(*model, id, name@, j) && match model.elem(
                    model.spec_association_properties(id)[j].0,
                ) {
                    Element::Association(a) => *p == a.properties@[1
                        - model.spec_association_properties(id)[j].1],
                    _ => false,
                },
            None => !exists|j: int|
                0 <= j < model.spec_association_properties(id).len() && opposite_end_named(
                    *model,
                    #[trigger] model.spec_association_properties(id)[j],
                    name@,
                ),
        },
{
    let ends = model.association_properties(id);
    let mut i: usize = 0;
    while i < ends.len()
        invariant
            ends@ == model.spec_association_properties(id),
            i <= ends.len(),
            forall|j: int| 0 <= j < i ==> !opposite_end_named(*model, #[trigger] ends@[j], name@),
        decreases ends.len() - i,
    {
        let (assoc_id, self_idx) = ends[i];
        if self_idx <= 1 {
            match model.try_get_element(assoc_id) {
                Some(Element::Association(a)) => {
                    let other = 1 - self_idx;
                    if other < a.properties.len() && str_eq(a.properties[other].name.as_str(), name) {
                        assert(first_end_at(*model, id, name@, i as int));
                        return Some(&a.properties[other]);
                    }
                },
                _ => {},
            }
        }
        i = i + 1;
    }
    None
}

/// Class `id` declares a property or qualified property named `name`.
pub open spec fn declares_pq(m: PureModel, id: ElementId, name: Seq<char>) -> bool {
    match m.elem(id) {
        Element::Class(c) => some_property_named(c.properties@, name) || some_qualified_named(
            c.qualified_properties@,
            name,
        ),
        _ => false,
    }
}

/// `i` is the first position of `order` whose class satisfies `declares_pq`.
pub open spec fn first_pq_class(m: PureModel, order: Seq<ElementId>, name: Seq<char>, i: int) -> bool {
    &&& 0 <= i < order.len()
    &&& declares_pq(m, order[i], name)
    &&& forall|j: int| 0 <= j < i ==> !declares_pq(m, #[trigger] order[j], name)
}

/// Views of a list of names.
pub open spec fn strings_view(v: Seq<String>) -> Seq<Seq<char>> {
    v.map_values(|s: String| s@)
}

/// The declared type of `property`, found breadth-first in the hierarchy
/// of `eid` (a property before a qualified property of the same class),
/// with the type parameters of the declaring class.
pub fn find_property_with_inheritance(eid: ElementId, property: &str, model: &PureModel) -> (r:
    Option<(TypeExpr, Vec<String>)>)
    requires
        model.lookup_defined(eid),
    ensures
        match r {
            None => forall|i: int|
                0 <= i < model.hierarchy_order(eid).len() ==> !declares_pq(
                    *model,
                    #[trigger] model.hierarchy_order(eid)[i],
                    property@,
                ),
            Some((t, params)) => exists|i: int|
                first_pq_class(*model, model.hierarchy_order(eid), property@, i) && match model.elem(
                    model.hierarchy_order(eid)[i],
                ) {
                    Element::Class(c) => {
                        &&& strings_view(params@) == strings_view(c.type_parameters@)
                        &&& if some_property_named(c.properties@, property@) {
                            exists|k: int|
                                first_prop_at(c.properties@, property@, k) && t@
                                    == c.properties@[k].type_expr@
                        } else {
                            exists|k: int|
                                first_qualified_at(c.qualified_properties@, property@, k) && t@
                                    == c.qualified_properties@[k].return_type@
                        }
                    },
                    _ => false,
                },
        },
{
    let order = hierarchy_classes(model, eid);
    proof {
        lemma_bfs_classes(*model, seq![eid], model.fresh_marks());
    }
    let mut k: usize = 0;
    while k < order.len()
        invariant
            order@ == model.hierarchy_order(eid),
            k <= order.len(),
            forall|i: int| 0 <= i < order@.len() ==> model.is_class(#[trigger] order@[i]),
            forall|j: int| 0 <= j < k ==> !declares_pq(*model, #[trigger] order@[j], property@),
        decreases order.len() - k,
    {
        match model.try_get_element(order[k]) {
            Some(Element::Class(c)) => {
                match find_prop_index(&c.properties, property) {
                    Some(pi) => {
                        let names = c.type_parameter_names();
                        assert(strings_view(names@) == strings_view(c.type_parameters@));
                        assert(first_pq_class(*model, order@, property@, k as int));
                        return Some((c.properties[pi].type_expr.duplicate(), names));
                    },
                    None => {},
                }
                match find_qualified_index(&c.qualified_properties, property) {
                    Some(qi) => {
                        let names = c.type_parameter_names();
                        assert(strings_view(names@) == strings_view(c.type_parameters@));
                        assert(first_pq_class(*model, order@, property@, k as int));
                        return Some((c.qualified_properties[qi].return_type.duplicate(), names));
                    },
                    None => {},
                }
            },
            _ => {
                assert(model.is_class(order@[k as int]));
            },
        }
        k = k + 1;
    }
    None
}

/// The declared multiplicity of `property`, found breadth-first in the
/// hierarchy of `eid` (a property before a qualified property of the same
/// class).
pub fn find_property_multiplicity(eid: ElementId, property: &str, model: &PureModel) -> (r: Option<
    crate::types::Multiplicity,
>)
    requires
        model.lookup_defined(eid),
    ensures
        match r {
            None => forall|i: int|
                0 <= i < model.hierarchy_order(eid).len() ==> !declares_pq(
                    *model,
                    #[trigger] model.hierarchy_order(eid)[i],
                    property@,
                ),
            Some(mult) => exists|i: int|
                first_pq_class(*model, model.hierarchy_order(eid), property@, i) && match model.elem(
                    model.hierarchy_order(eid)[i],
                ) {
                    Element::Class(c) => if some_property_named(c.properties@, property@) {
                        exists|k: int|
                            first_prop_at(c.properties@, property@, k) && mult@
                                == c.properties@[k].multiplicity@
                    } else {
                        exists|k: int|
                            first_qualified_at(c.qualified_properties@, property@, k) && mult@
                                == c.qualified_properties@[k].return_multiplicity@
                    },
                    _ => false,
                },
        },
{
    let order = hierarchy_classes(model, eid);
    proof {
        lemma_bfs_classes(*model, seq![eid], model.fresh_marks());
    }
    let mut k: usize = 0;
    while k < order.len()
        invariant
            order@ == model.hierarchy_order(eid),
            k <= order.len(),
            forall|i: int| 0 <= i < order@.len() ==> model.is_class(#[trigger] order@[i]),
            forall|j: int| 0 <= j < k ==> !declares_pq(*model, #[trigger] order@[j], property@),
        decreases order.len() - k,
    {
        match model.try_get_element(order[k]) {
            Some(Element::Class(c)) => {
                match find_prop_index(&c.properties, property) {
                    Some(pi) => {
                        assert(first_pq_class(*model, order@, property@, k as int));
                        return Some(c.properties[pi].multiplicity.duplicate());
                    },
                    None => {},
                }
                match find_qualified_index(&c.qualified_properties, property) {
                    Some(qi) => {
                        assert(first_pq_class(*model, order@, property@, k as int));
                        return Some(c.qualified_properties[qi].return_multiplicity.duplicate());
                    },
                    None => {},
                }
            },
            _ => {
                assert(model.is_class(order@[k as int]));
            },
        }
        k = k + 1;
    }
    None
}

/// Class `id` declares a property named `name`, or has an association end
/// whose opposite property is so named.
pub open spec fn declares_slot(m: PureModel, id: ElementId, name: Seq<char>) -> bool {
    match m.elem(id) {
        Element::Class(c) => some_property_named(c.properties@, name) || exists|j: int|
            0 <= j < m.spec_association_properties(id).len() && opposite_end_named(
                m,
                #[trigger] m.spec_association_properties(id)[j],
                name,
            ),
        _ => false,
    }
}

/// `i` is the first position of `order` whose class satisfies
/// `declares_slot`.
pub open spec fn first_slot_class(m: PureModel, order: Seq<ElementId>, name: Seq<char>, i: int) -> bool {
    &&& 0 <= i < order.len()
    &&& declares_slot(m, order[i], name)
    &&& forall|j: int| 0 <= j < i ==> !declares_slot(m, #[trigger] order[j], name)
}

/// Whatever the breadth-first finders locate in a hierarchy, the
/// hierarchy test reports: a class declaring the property or qualified
/// property (`find_property_with_inheritance`), or declaring the property
/// or reaching it through an association end
/// (`find_property_full_with_inheritance`), makes
/// `class_has_property_in_hierarchy` answer `true`.
pub proof fn lemma_found_implies_in_hierarchy(m: PureModel, start: ElementId, name: Seq<char>)
    ensures
        (exists|i: int|
            0 <= i < m.hierarchy_order(start).len() && declares_pq(
                m,
                #[trigger] m.hierarchy_order(start)[i],
                name,
            )) ==> exists|i: int|
            0 <= i < m.hierarchy_order(start).len() && class_has_named(
                m,
                #[trigger] m.hierarchy_order(start)[i],
                name,
            ),
        (exists|i: int|
            0 <= i < m.hierarchy_order(start).len() && declares_slot(
                m,
                #[trigger] m.hierarchy_order(start)[i],
                name,
            )) ==> exists|i: int|
            0 <= i < m.hierarchy_order(start).len() && class_has_named(
                m,
                #[trigger] m.hierarchy_order(start)[i],
                name,
            ),
{
    let order = m.hierarchy_order(start);
    if exists|i: int| 0 <= i < order.len() && declares_pq(m, #[trigger] order[i], name) {
        let i = choose|i: int| 0 <= i < order.len() && declares_pq(m, #[trigger] order[i], name);
        assert(class_has_named(m, order[i], name));
    }
    if exists|i: int| 0 <= i < order.len() && declares_slot(m, #[trigger] order[i], name) {
        let i = choose|i: int| 0 <= i < order.len() && declares_slot(m, #[trigger] order[i], name);
        assert(class_has_named(m, order[i], name));
    }
}

/// The full property record for `property`, found breadth-first in the
/// hierarchy of `eid`: a declared property, else the opposite end of an
/// association attached to the class. Qualified properties are not
/// considered.
pub fn find_property_full_with_inheritance<'m>(
    eid: ElementId,
    property: &str,
    model: &'m PureModel,
) -> (r: Option<&'m Property>)
    requires
        model.lookup_defined(eid),
    ensures
        match r {
            None => forall|i: int|
                0 <= i < model.hierarchy_order(eid).len() ==> !declares_slot(
                    *model,
                    #[trigger] model.hierarchy_order(eid)[i],
                    property@,
                ),
            Some(p) => exists|i: int|
                first_slot_class(*model, model.hierarchy_order(eid), property@, i) && {
                    let id = model.hierarchy_order(eid)[i];
                    match model.elem(id) {
                        Element::Class(c) => if some_property_named(c.properties@, property@) {
                            exists|k: int|
                                first_prop_at(c.properties@, property@, k) && *p == c.properties@[k]
                        } else {
                            exists|j: int|
                                first_end_at(*model, id, property@, j) && match model.elem(
                                    model.spec_association_properties(id)[j].0,
                                ) {
                                    Element::Association(a) => *p == a.properties@[1
                                        - model.spec_association_properties(id)[j].1],
                                    _ => false,
                                }
                        },
                        _ => false,
                    }
                },
        },
{
    let order = hierarchy_classes(model, eid);
    proof {
        lemma_bfs_classes(*model, seq![eid], model.fresh_marks());
    }
    let mut k: usize = 0;
    while k < order.len()
        invariant
            order@ == model.hierarchy_order(eid),
            k <= order.len(),
            forall|i: int| 0 <= i < order@.len() ==> model.is_class(#[trigger] order@[i]),
            forall|j: int| 0 <= j < k ==> !declares_slot(*model, #[trigger] order@[j], property@),
        decreases order.len() - k,
    {
        let id = order[k];
        match model.try_get_element(id) {
            Some(Element::Class(c)) => {
                match find_prop_index(&c.properties, property) {
                    Some(pi) => {
                        assert(first_slot_class(*model, order@, property@, k as int));
                        return Some(&c.properties[pi]);
                    },
                    None => {},
                }
                match find_opposite_end(model, id, property) {
                    Some(p) => {
                        assert(first_slot_class(*model, order@, property@, k as int));
                        return Some(p);
                    },
                    None => {},
                }
            },
            _ => {
                assert(model.is_class(order@[k as int]));
            },
        }
        k = k + 1;
    }
    None
}

} // verus!

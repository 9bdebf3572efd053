//! Generic-parameter machinery of call-site inference: binding tables,
//! substitution of bound type and multiplicity parameters (following
//! alias chains), and per-call-site renaming of a callee's parameters.
//!
//! A binding table maps a parameter name to what it is bound to. It is
//! held as a list of `(name, value)` entries in which no name occurs
//! twice; its meaning is the finite map `assoc_view` gives.

use vstd::prelude::*;

use crate::expr::{Parameter, ParameterView};
use crate::ids::{any_id, nil_id, ElementId};
use crate::model::{Element, PureModel};
use crate::nodes::{Class, Variance};
use crate::resolve::{named_ids, named_view};
use crate::milestoning::str_eq;
use crate::types::{
    consts_view, mults_view, source_view, ConstValueView, MultView, Multiplicity,
    te_view, RelationColumnTypeExpr, SourceInfoView, TypeExpr, TypeExprView,
};

verus! {

broadcast use vstd::std_specs::vec::axiom_vec_index_decreases;

// ---------------------------------------------------------------------------
// Binding tables
// ---------------------------------------------------------------------------

/// No name occurs twice in a binding table.
pub open spec fn names_unique<V>(s: Seq<(String, V)>) -> bool {
    forall|i: int, j: int| 0 <= i < j < s.len() ==> s[i].0@ != s[j].0@
}

/// The finite map a binding table stands for.
pub open spec fn assoc_view<V: View>(s: Seq<(String, V)>) -> Map<Seq<char>, V::V>
    decreases s.len(),
{
    if s.len() == 0 {
        Map::empty()
    } else {
        assoc_view(s.drop_last()).insert(s.last().0@, s.last().1@)
    }
}

/// A binding table's map is finite, holds exactly the table's names, and
/// (names being unique) gives each name the value of its entry.
pub proof fn lemma_assoc_view<V: View>(s: Seq<(String, V)>)
    requires
        names_unique(s),
    ensures
        assoc_view(s).dom().finite(),
        forall|i: int|
            0 <= i < s.len() ==> assoc_view(s).contains_key(#[trigger] s[i].0@) && assoc_view(s)[s[i].0@]
                == s[i].1@,
        forall|k: Seq<char>|
            #[trigger] assoc_view(s).contains_key(k) ==> exists|i: int| 0 <= i < s.len() && s[i].0@ == k,
    decreases s.len(),
{
    if s.len() > 0 {
        let d = s.drop_last();
        assert(names_unique(d)) by {
            assert forall|i: int, j: int| 0 <= i < j < d.len() implies d[i].0@ != d[j].0@ by {
                assert(d[i] == s[i] && d[j] == s[j]);
            }
        }
        lemma_assoc_view(d);
        assert forall|i: int| 0 <= i < s.len() implies assoc_view(s).contains_key(
            #[trigger] s[i].0@,
        ) && assoc_view(s)[s[i].0@] == s[i].1@ by {
            if i < s.len() - 1 {
                assert(d[i] == s[i]);
                assert(s[i].0@ != s.last().0@);
            }
        }
        assert forall|k: Seq<char>| #[trigger] assoc_view(s).contains_key(k) implies exists|i: int|
            0 <= i < s.len() && s[i].0@ == k by {
            if k != s.last().0@ {
                assert(assoc_view(d).contains_key(k));
                let i = choose|i: int| 0 <= i < d.len() && d[i].0@ == k;
                assert(s[i] == d[i]);
            } else {
                assert(s[s.len() - 1].0@ == k);
            }
        }
    }
}

/// Position of `name` in a binding table.
pub fn find_binding<V>(s: &Vec<(String, V)>, name: &str) -> (r: Option<usize>)
    ensures
        match r {
            Some(i) => i < s.len() && s@[i as int].0@ == name@,
            None => forall|i: int| 0 <= i < s.len() ==> s@[i].0@ != name@,
        },
{
    let mut i: usize = 0;
    while i < s.len()
        invariant
            i <= s.len(),
            forall|j: int| 0 <= j < i ==> s@[j].0@ != name@,
        decreases s.len() - i,
    {
        if str_eq(s[i].0.as_str(), name) {
            return Some(i);
        }
        i = i + 1;
    }
    None
}

/// The value bound to `name`, if any.
pub fn lookup_binding<'a, V: View>(s: &'a Vec<(String, V)>, name: &str) -> (r: Option<&'a V>)
    requires
        names_unique(s@),
    ensures
        match r {
            Some(v) => assoc_view(s@).contains_key(name@) && v@ == assoc_view(s@)[name@],
            None => !assoc_view(s@).contains_key(name@),
        },
{
    proof {
        lemma_assoc_view(s@);
    }
    match find_binding(s, name) {
        Some(i) => Some(&s[i].1),
        None => None,
    }
}

/// Binds `name` to `v`, replacing an earlier binding of it.
pub fn set_binding<V: View>(s: &mut Vec<(String, V)>, name: String, v: V)
    requires
        names_unique(old(s)@),
    ensures
        names_unique(final(s)@),
        assoc_view(final(s)@) == assoc_view(old(s)@).insert(name@, v@),
{
    proof {
        lemma_assoc_view(s@);
    }
    let ghost before = s@;
    match find_binding(s, name.as_str()) {
        Some(i) => {
            let ghost k = name@;
            let ghost vv = v@;
            s.set(i, (name, v));
            proof {
                lemma_assoc_view(s@);
                assert(names_unique(s@)) by {
                    assert forall|a: int, b: int| 0 <= a < b < s@.len() implies s@[a].0@ != s@[b].0@ by {
                        if a != i && b != i {
                            assert(s@[a] == before[a] && s@[b] == before[b]);
                        } else if a == i {
                            assert(s@[b] == before[b]);
                        } else {
                            assert(s@[a] == before[a]);
                        }
                    }
                }
                lemma_assoc_view(s@);
                assert(assoc_view(s@) =~= assoc_view(before).insert(k, vv)) by {
                    assert forall|key: Seq<char>| #[trigger] assoc_view(s@).contains_key(key) <==> assoc_view(
                        before,
                    ).insert(k, vv).contains_key(key) by {
                        if assoc_view(s@).contains_key(key) {
                            let j = choose|j: int| 0 <= j < s@.len() && s@[j].0@ == key;
                            if j != i {
                                assert(s@[j] == before[j]);
                            }
                        }
                        if assoc_view(before).contains_key(key) {
                            let j = choose|j: int| 0 <= j < before.len() && before[j].0@ == key;
                            if j != i {
                                assert(s@[j] == before[j]);
                            } else {
                                assert(s@[i as int].0@ == key);
                            }
                        }
                        if key == k {
                            assert(s@[i as int].0@ == k);
                        }
                    }
                    assert forall|key: Seq<char>| #[trigger] assoc_view(s@).contains_key(key) implies assoc_view(
                        s@,
                    )[key] == assoc_view(before).insert(k, vv)[key] by {
                        let j = choose|j: int| 0 <= j < s@.len() && s@[j].0@ == key;
                        if j != i {
                            assert(s@[j] == before[j]);
                        }
                    }
                }
            }
        },
        None => {
            s.push((name, v));
            proof {
                assert(s@.drop_last() =~= before);
                assert(names_unique(s@)) by {
                    assert forall|a: int, b: int| 0 <= a < b < s@.len() implies s@[a].0@ != s@[b].0@ by {
                        assert(s@[a] == before[a]);
                        if b < before.len() {
                            assert(s@[b] == before[b]);
                        }
                    }
                }
            }
        },
    }
}

// ---------------------------------------------------------------------------
// Substitution
// ---------------------------------------------------------------------------

/// Where the multiplicity parameter `cur` leads in `b`: along
/// parameter-to-parameter aliases until a binding that is not such an
/// alias (returned as it is), an unbound name, or a name met before (a
/// cycle), which are returned as parameters. `seen` holds the names
/// already passed.
pub open spec fn chase_mult(b: Map<Seq<char>, MultView>, cur: Seq<char>, seen: Set<Seq<char>>) -> MultView
    decreases b.dom().len() - seen.len(),
    when b.dom().finite() && seen.subset_of(b.dom())
{
    if seen.contains(cur) {
        MultView::Variable(cur)
    } else if b.contains_key(cur) {
        match b[cur] {
            MultView::Variable(next) => if next != cur {
                proof {
                    vstd::set_lib::lemma_len_subset(seen.insert(cur), b.dom());
                }
                chase_mult(b, next, seen.insert(cur))
            } else {
                b[cur]
            },
            _ => b[cur],
        }
    } else {
        MultView::Variable(cur)
    }
}

/// Where the type parameter `cur` leads in `b`, as `chase_mult` does for
/// multiplicities: a non-parameter binding is returned as it is, without
/// substituting inside it.
pub open spec fn chase_type(b: Map<Seq<char>, TypeExprView>, cur: Seq<char>, seen: Set<Seq<char>>) -> TypeExprView
    decreases b.dom().len() - seen.len(),
    when b.dom().finite() && seen.subset_of(b.dom())
{
    if seen.contains(cur) {
        TypeExprView::Generic(cur)
    } else if b.contains_key(cur) {
        match b[cur] {
            TypeExprView::Generic(next) => if next != cur {
                proof {
                    vstd::set_lib::lemma_len_subset(seen.insert(cur), b.dom());
                }
                chase_type(b, next, seen.insert(cur))
            } else {
                b[cur]
            },
            _ => b[cur],
        }
    } else {
        TypeExprView::Generic(cur)
    }
}

/// A multiplicity with its parameter resolved through `b`.
pub open spec fn subst_mult(b: Map<Seq<char>, MultView>, m: MultView) -> MultView {
    match m {
        MultView::Variable(name) => chase_mult(b, name, Set::empty()),
        _ => m,
    }
}

/// A type expression with every type parameter resolved through `tb` and
/// every multiplicity parameter through `mb`, at any depth: type
/// arguments, function-type parameters and returns, union sides and
/// relation columns.
pub open spec fn subst_type(
    tb: Map<Seq<char>, TypeExprView>,
    mb: Map<Seq<char>, MultView>,
    t: TypeExprView,
) -> TypeExprView
    decreases t,
{
    match t {
        TypeExprView::Generic(name) => chase_type(tb, name, Set::empty()),
        TypeExprView::Named {
            element,
            type_arguments,
            multiplicity_arguments,
            value_arguments,
            source_info,
        } => TypeExprView::Named {
            element,
            type_arguments: Seq::new(
                type_arguments.len(),
                |i: int| if 0 <= i < type_arguments.len() { subst_type(tb, mb, type_arguments[i]) } else { TypeExprView::Unresolved },
            ),
            multiplicity_arguments: multiplicity_arguments.map_values(|m: MultView| subst_mult(mb, m)),
            value_arguments,
            source_info,
        },
        TypeExprView::FunctionType { parameters, return_type, return_multiplicity } =>
            TypeExprView::FunctionType {
            parameters: Seq::new(
                parameters.len(),
                |i: int| if 0 <= i < parameters.len() { (subst_type(tb, mb, parameters[i].0), subst_mult(mb, parameters[i].1)) } else { (TypeExprView::Unresolved, MultView::PureOne) },
            ),
            return_type: Box::new(subst_type(tb, mb, *return_type)),
            return_multiplicity: subst_mult(mb, return_multiplicity),
        },
        TypeExprView::AlgebraUnion(a, b) => TypeExprView::AlgebraUnion(
            Box::new(subst_type(tb, mb, *a)),
            Box::new(subst_type(tb, mb, *b)),
        ),
        TypeExprView::Relation(cols) => TypeExprView::Relation(
            Seq::new(
                cols.len(),
                |i: int| if 0 <= i < cols.len() { (cols[i].0, subst_type(tb, mb, cols[i].1), subst_mult(mb, cols[i].2)) } else { (Seq::empty(), TypeExprView::Unresolved, MultView::PureOne) },
            ),
        ),
        _ => t,
    }
}

/// Whether `name` is one of the names of `seen`.
fn seen_contains(seen: &Vec<String>, name: &str) -> (r: bool)
    ensures
        r == exists|i: int| 0 <= i < seen.len() && seen@[i]@ == name@,
{
    let mut i: usize = 0;
    while i < seen.len()
        invariant
            i <= seen.len(),
            forall|j: int| 0 <= j < i ==> seen@[j]@ != name@,
        decreases seen.len() - i,
    {
        if str_eq(seen[i].as_str(), name) {
            return true;
        }
        i = i + 1;
    }
    false
}

/// The set of names in a list.
pub open spec fn name_set(s: Seq<String>) -> Set<Seq<char>> {
    Set::new(|x: Seq<char>| exists|i: int| 0 <= i < s.len() && s[i]@ == x)
}

/// Substitutes a multiplicity parameter with what it is bound to,
/// following parameter-to-parameter aliases (a cycle stops at the
/// parameter met twice). Other multiplicities are returned unchanged.
pub fn substitute_mult(m: &Multiplicity, bindings: &Vec<(String, Multiplicity)>) -> (r: Multiplicity)
    requires
        names_unique(bindings@),
    ensures
        r@ == subst_mult(assoc_view(bindings@), m@),
{
    let ghost b = assoc_view(bindings@);
    proof {
        lemma_assoc_view(bindings@);
    }
    match m {
        Multiplicity::Variable(name) => {
            let mut cur: String = name.clone();
            let mut seen: Vec<String> = Vec::new();
            assert(name_set(seen@) =~= Set::<Seq<char>>::empty());
            loop
                invariant
                    names_unique(bindings@),
                    b == assoc_view(bindings@),
                    b.dom().finite(),
                    name_set(seen@).subset_of(b.dom()),
                    name_set(seen@).len() == seen.len(),
                    name_set(seen@).finite(),
                    chase_mult(b, cur@, name_set(seen@)) == chase_mult(b, name@, Set::empty()),
                    m@ == MultView::Variable(name@),
                decreases b.dom().len() - seen.len(),
            {
                if seen_contains(&seen, cur.as_str()) {
                    assert(name_set(seen@).contains(cur@));
                    return Multiplicity::Variable(cur);
                }
                let ghost old_set = name_set(seen@);
                let ghost old_seen = seen@;
                seen.push(cur.clone());
                proof {
                    assert(name_set(seen@) =~= old_set.insert(cur@)) by {
                        assert forall|x: Seq<char>| name_set(seen@).contains(x) implies old_set.insert(cur@).contains(x) by {
                            let i = choose|i: int| 0 <= i < seen@.len() && seen@[i]@ == x;
                            if i < seen@.len() - 1 {
                                assert(old_set.contains(x));
                            }
                        }
                        assert forall|x: Seq<char>| old_set.insert(cur@).contains(x) implies name_set(seen@).contains(x) by {
                            if x == cur@ {
                                assert(seen@[seen@.len() - 1]@ == x);
                            } else {
                                let i = choose|i: int| 0 <= i < old_seen.len() && old_seen[i]@ == x;
                                assert(seen@[i] == old_seen[i]);
                            }
                        }
                    }
                }
                match lookup_binding(bindings, cur.as_str()) {
                    Some(bound) => {
                        match bound {
                            Multiplicity::Variable(next) => {
                                if !str_eq(next.as_str(), cur.as_str()) {
                                    proof {
                                        vstd::set_lib::lemma_len_subset(old_set.insert(cur@), b.dom());
                                    }
                                    cur = next.clone();
                                } else {
                                    return bound.duplicate();
                                }
                            },
                            _ => {
                                return bound.duplicate();
                            },
                        }
                    },
                    None => {
                        return Multiplicity::Variable(cur);
                    },
                }
            }
        },
        _ => m.duplicate(),
    }
}


/// Where the type parameter `name` leads through `bindings`.
fn chase_type_binding(name: &String, bindings: &Vec<(String, TypeExpr)>) -> (r: TypeExpr)
    requires
        names_unique(bindings@),
    ensures
        r@ == chase_type(assoc_view(bindings@), name@, Set::empty()),
{
    let ghost b = assoc_view(bindings@);
    proof {
        lemma_assoc_view(bindings@);
    }
    let mut cur: String = name.clone();
    let mut seen: Vec<String> = Vec::new();
    assert(name_set(seen@) =~= Set::<Seq<char>>::empty());
    loop
        invariant
            names_unique(bindings@),
            b == assoc_view(bindings@),
            b.dom().finite(),
            name_set(seen@).subset_of(b.dom()),
            name_set(seen@).len() == seen.len(),
            name_set(seen@).finite(),
            chase_type(b, cur@, name_set(seen@)) == chase_type(b, name@, Set::empty()),
        decreases b.dom().len() - seen.len(),
    {
        if seen_contains(&seen, cur.as_str()) {
            assert(name_set(seen@).contains(cur@));
            return TypeExpr::Generic(cur);
        }
        let ghost old_set = name_set(seen@);
        let ghost old_seen = seen@;
        seen.push(cur.clone());
        proof {
            assert(name_set(seen@) =~= old_set.insert(cur@)) by {
                assert forall|x: Seq<char>| name_set(seen@).contains(x) implies old_set.insert(cur@).contains(x) by {
                    let i = choose|i: int| 0 <= i < seen@.len() && seen@[i]@ == x;
                    if i < seen@.len() - 1 {
                        assert(old_seen[i] == seen@[i]);
                        assert(old_set.contains(x));
                    }
                }
                assert forall|x: Seq<char>| old_set.insert(cur@).contains(x) implies name_set(seen@).contains(x) by {
                    if x == cur@ {
                        assert(seen@[seen@.len() - 1]@ == x);
                    } else {
                        let i = choose|i: int| 0 <= i < old_seen.len() && old_seen[i]@ == x;
                        assert(seen@[i] == old_seen[i]);
                    }
                }
            }
        }
        match lookup_binding(bindings, cur.as_str()) {
            Some(bound) => {
                match bound {
                    TypeExpr::Generic(next) => {
                        if !str_eq(next.as_str(), cur.as_str()) {
                            proof {
                                vstd::set_lib::lemma_len_subset(old_set.insert(cur@), b.dom());
                            }
                            cur = next.clone();
                        } else {
                            return bound.duplicate();
                        }
                    },
                    _ => {
                        return bound.duplicate();
                    },
                }
            },
            None => {
                return TypeExpr::Generic(cur);
            },
        }
    }
}

fn subst_types(
    v: &Vec<TypeExpr>,
    bindings: &Vec<(String, TypeExpr)>,
    mult_bindings: &Vec<(String, Multiplicity)>,
) -> (r: Vec<TypeExpr>)
    requires
        names_unique(bindings@),
        names_unique(mult_bindings@),
    ensures
        r.len() == v.len(),
        forall|j: int|
            0 <= j < v.len() ==> #[trigger] te_view(r@[j]) == subst_type(
                assoc_view(bindings@),
                assoc_view(mult_bindings@),
                te_view(v@[j]),
            ),
    decreases v,
{
    let mut r: Vec<TypeExpr> = Vec::new();
    let mut i: usize = 0;
    while i < v.len()
        invariant
            names_unique(bindings@),
            names_unique(mult_bindings@),
            i <= v.len(),
            r.len() == i,
            forall|j: int|
                0 <= j < i ==> #[trigger] te_view(r@[j]) == subst_type(
                    assoc_view(bindings@),
                    assoc_view(mult_bindings@),
                    te_view(v@[j]),
                ),
        decreases v.len() - i,
    {
        proof {
            vstd::std_specs::vec::axiom_vec_index_decreases(*v, i as int);
        }
        r.push(substitute_type_with_mults(&v[i], bindings, mult_bindings));
        i = i + 1;
    }
    r
}

fn subst_mults(v: &Vec<Multiplicity>, mult_bindings: &Vec<(String, Multiplicity)>) -> (r: Vec<
    Multiplicity,
>)
    requires
        names_unique(mult_bindings@),
    ensures
        mults_view(r@) == mults_view(v@).map_values(|m: MultView| subst_mult(assoc_view(mult_bindings@), m)),
{
    let mut r: Vec<Multiplicity> = Vec::new();
    let mut i: usize = 0;
    while i < v.len()
        invariant
            names_unique(mult_bindings@),
            i <= v.len(),
            r.len() == i,
            forall|j: int|
                0 <= j < i ==> #[trigger] r@[j]@ == subst_mult(assoc_view(mult_bindings@), v@[j]@),
        decreases v.len() - i,
    {
        r.push(substitute_mult(&v[i], mult_bindings));
        i = i + 1;
    }
    assert(mults_view(r@) =~= mults_view(v@).map_values(
        |m: MultView| subst_mult(assoc_view(mult_bindings@), m),
    ));
    r
}

fn subst_params(
    v: &Vec<(TypeExpr, Multiplicity)>,
    bindings: &Vec<(String, TypeExpr)>,
    mult_bindings: &Vec<(String, Multiplicity)>,
) -> (r: Vec<(TypeExpr, Multiplicity)>)
    requires
        names_unique(bindings@),
        names_unique(mult_bindings@),
    ensures
        r.len() == v.len(),
        forall|j: int|
            0 <= j < v.len() ==> #[trigger] te_view(r@[j].0) == subst_type(
                assoc_view(bindings@),
                assoc_view(mult_bindings@),
                te_view(v@[j].0),
            ) && r@[j].1@ == subst_mult(assoc_view(mult_bindings@), v@[j].1@),
    decreases v,
{
    let mut r: Vec<(TypeExpr, Multiplicity)> = Vec::new();
    let mut i: usize = 0;
    while i < v.len()
        invariant
            names_unique(bindings@),
            names_unique(mult_bindings@),
            i <= v.len(),
            r.len() == i,
            forall|j: int|
                0 <= j < i ==> #[trigger] te_view(r@[j].0) == subst_type(
                    assoc_view(bindings@),
                    assoc_view(mult_bindings@),
                    te_view(v@[j].0),
                ) && r@[j].1@ == subst_mult(assoc_view(mult_bindings@), v@[j].1@),
        decreases v.len() - i,
    {
        proof {
            vstd::std_specs::vec::axiom_vec_index_decreases(*v, i as int);
        }
        let t = substitute_type_with_mults(&v[i].0, bindings, mult_bindings);
        let m = substitute_mult(&v[i].1, mult_bindings);
        r.push((t, m));
        i = i + 1;
    }
    r
}

fn subst_columns(
    v: &Vec<RelationColumnTypeExpr>,
    bindings: &Vec<(String, TypeExpr)>,
    mult_bindings: &Vec<(String, Multiplicity)>,
) -> (r: Vec<RelationColumnTypeExpr>)
    requires
        names_unique(bindings@),
        names_unique(mult_bindings@),
    ensures
        r.len() == v.len(),
        forall|j: int|
            0 <= j < v.len() ==> #[trigger] r@[j].name@ == v@[j].name@ && te_view(r@[j].type_expr)
                == subst_type(
                assoc_view(bindings@),
                assoc_view(mult_bindings@),
                te_view(v@[j].type_expr),
            ) && r@[j].multiplicity@ == subst_mult(assoc_view(mult_bindings@), v@[j].multiplicity@),
    decreases v,
{
    let mut r: Vec<RelationColumnTypeExpr> = Vec::new();
    let mut i: usize = 0;
    while i < v.len()
        invariant
            names_unique(bindings@),
            names_unique(mult_bindings@),
            i <= v.len(),
            r.len() == i,
            forall|j: int|
                0 <= j < i ==> #[trigger] r@[j].name@ == v@[j].name@ && te_view(r@[j].type_expr)
                    == subst_type(
                    assoc_view(bindings@),
                    assoc_view(mult_bindings@),
                    te_view(v@[j].type_expr),
                ) && r@[j].multiplicity@ == subst_mult(assoc_view(mult_bindings@), v@[j].multiplicity@),
        decreases v.len() - i,
    {
        proof {
            vstd::std_specs::vec::axiom_vec_index_decreases(*v, i as int);
        }
        let c = RelationColumnTypeExpr {
            name: v[i].name.clone(),
            type_expr: substitute_type_with_mults(&v[i].type_expr, bindings, mult_bindings),
            multiplicity: substitute_mult(&v[i].multiplicity, mult_bindings),
        };
        r.push(c);
        i = i + 1;
    }
    r
}

/// Substitutes bound type parameters and bound multiplicity parameters
/// throughout `ty`: type arguments, multiplicity arguments, function-type
/// parameters and returns, both sides of a union and relation columns.
/// A type parameter follows alias chains to the first binding that is not
/// a parameter, which is used as it is; unbound parameters stay.
pub fn substitute_type_with_mults(
    ty: &TypeExpr,
    bindings: &Vec<(String, TypeExpr)>,
    mult_bindings: &Vec<(String, Multiplicity)>,
) -> (r: TypeExpr)
    requires
        names_unique(bindings@),
        names_unique(mult_bindings@),
    ensures
        r@ == subst_type(assoc_view(bindings@), assoc_view(mult_bindings@), ty@),
    decreases ty,
{
    proof {
        crate::types::lemma_te_view_parts(*ty);
    }
    let ghost tb = assoc_view(bindings@);
    let ghost mb = assoc_view(mult_bindings@);
    match ty {
        TypeExpr::Generic(name) => chase_type_binding(name, bindings),
        TypeExpr::Named {
            element,
            type_arguments,
            multiplicity_arguments,
            value_arguments,
            source_info,
        } => {
            let ta = subst_types(type_arguments, bindings, mult_bindings);
            let ma = subst_mults(multiplicity_arguments, mult_bindings);
            let va = crate::types::dup_consts(value_arguments);
            let si = crate::types::dup_source(source_info);
            let r = TypeExpr::Named {
                element: *element,
                type_arguments: ta,
                multiplicity_arguments: ma,
                value_arguments: va,
                source_info: si,
            };
            proof {
                crate::types::lemma_te_view_parts(r);
                let want = subst_type(tb, mb, ty@);
                assert(r@->type_arguments =~= want->type_arguments) by {
                    assert forall|i: int| 0 <= i < ta.len() implies r@->type_arguments[i]
                        == want->type_arguments[i] by {
                        assert(r@->type_arguments[i] == te_view(ta@[i]));
                        assert(ty@->type_arguments[i] == te_view(type_arguments@[i]));
                    }
                }
            }
            r
        },
        TypeExpr::FunctionType { parameters, return_type, return_multiplicity } => {
            let ps = subst_params(parameters, bindings, mult_bindings);
            let rt = substitute_type_with_mults(&**return_type, bindings, mult_bindings);
            let rm = substitute_mult(return_multiplicity, mult_bindings);
            let r = TypeExpr::FunctionType {
                parameters: ps,
                return_type: Box::new(rt),
                return_multiplicity: rm,
            };
            proof {
                crate::types::lemma_te_view_parts(r);
                let want = subst_type(tb, mb, ty@);
                assert(r@->parameters =~= want->parameters) by {
                    assert forall|i: int| 0 <= i < ps.len() implies r@->parameters[i]
                        == want->parameters[i] by {
                        assert(r@->parameters[i] == (te_view(ps@[i].0), ps@[i].1@));
                        assert(ty@->parameters[i] == (te_view(parameters@[i].0), parameters@[i].1@));
                    }
                }
            }
            r
        },
        TypeExpr::AlgebraUnion(a, b) => {
            let a2 = substitute_type_with_mults(&**a, bindings, mult_bindings);
            let b2 = substitute_type_with_mults(&**b, bindings, mult_bindings);
            TypeExpr::AlgebraUnion(Box::new(a2), Box::new(b2))
        },
        TypeExpr::Relation(cols) => {
            let cs = subst_columns(cols, bindings, mult_bindings);
            let r = TypeExpr::Relation(cs);
            proof {
                crate::types::lemma_te_view_parts(r);
                let want = subst_type(tb, mb, ty@);
                assert(r@->Relation_0 =~= want->Relation_0) by {
                    assert forall|i: int| 0 <= i < cs.len() implies r@->Relation_0[i]
                        == want->Relation_0[i] by {
                        assert(r@->Relation_0[i] == (cs@[i].name@, te_view(cs@[i].type_expr), cs@[i].multiplicity@));
                        assert(ty@->Relation_0[i] == (cols@[i].name@, te_view(cols@[i].type_expr), cols@[i].multiplicity@));
                    }
                }
            }
            r
        },
        TypeExpr::Unresolved => TypeExpr::Unresolved,
    }
}

/// Substitutes bound type parameters throughout `ty` (multiplicity
/// parameters stay).
pub fn substitute_type(ty: &TypeExpr, bindings: &Vec<(String, TypeExpr)>) -> (r: TypeExpr)
    requires
        names_unique(bindings@),
    ensures
        r@ == subst_type(assoc_view(bindings@), Map::empty(), ty@),
{
    let empty: Vec<(String, Multiplicity)> = Vec::new();
    proof {
        assert(assoc_view(empty@) =~= Map::<Seq<char>, MultView>::empty());
    }
    substitute_type_with_mults(ty, bindings, &empty)
}


/// The map from `names[i]` to `values[i]` over the positions both lists
/// have, a later name overriding an earlier one.
pub open spec fn zip_map(names: Seq<Seq<char>>, values: Seq<TypeExprView>, n: int) -> Map<
    Seq<char>,
    TypeExprView,
>
    decreases n,
{
    if n <= 0 {
        Map::empty()
    } else {
        zip_map(names, values, n - 1).insert(names[n - 1], values[n - 1])
    }
}

/// Views of a list of names.
pub open spec fn strs_view(s: Seq<String>) -> Seq<Seq<char>> {
    s.map_values(|x: String| x@)
}

/// Views of a list of type expressions.
pub open spec fn types_view(s: Seq<TypeExpr>) -> Seq<TypeExprView> {
    s.map_values(|t: TypeExpr| t@)
}

/// Rewrites a property type by substituting a class's type parameters
/// (`type_params[i]`) with the use site's type arguments
/// (`type_args[i]`), position by position.
pub fn substitute_class_generics(ty: &TypeExpr, type_params: &[String], type_args: &[TypeExpr]) -> (r:
    TypeExpr)
    ensures
        r@ == subst_type(
            zip_map(
                strs_view(type_params@),
                types_view(type_args@),
                if type_params@.len() < type_args@.len() {
                    type_params@.len() as int
                } else {
                    type_args@.len() as int
                },
            ),
            Map::empty(),
            ty@,
        ),
{
    let n = if type_params.len() < type_args.len() {
        type_params.len()
    } else {
        type_args.len()
    };
    let mut bindings: Vec<(String, TypeExpr)> = Vec::new();
    let mut i: usize = 0;
    assert(assoc_view(bindings@) =~= zip_map(strs_view(type_params@), types_view(type_args@), 0));
    while i < n
        invariant
            n <= type_params@.len(),
            n <= type_args@.len(),
            i <= n,
            names_unique(bindings@),
            assoc_view(bindings@) == zip_map(strs_view(type_params@), types_view(type_args@), i as int),
        decreases n - i,
    {
        set_binding(&mut bindings, type_params[i].clone(), type_args[i].duplicate());
        i = i + 1;
    }
    substitute_type(ty, &bindings)
}

// ---------------------------------------------------------------------------
// Per-call-site renaming
// ---------------------------------------------------------------------------

/// A multiplicity parameter renamed through `mr`; anything else unchanged.
pub open spec fn rename_mult(mr: Map<Seq<char>, Seq<char>>, m: MultView) -> MultView {
    match m {
        MultView::Variable(n) => if mr.contains_key(n) {
            MultView::Variable(mr[n])
        } else {
            m
        },
        _ => m,
    }
}

/// A type expression with its type parameters renamed through `tr` and
/// its multiplicity parameters through `mr`, at any depth.
pub open spec fn rename_type(
    tr: Map<Seq<char>, Seq<char>>,
    mr: Map<Seq<char>, Seq<char>>,
    t: TypeExprView,
) -> TypeExprView
    decreases t,
{
    match t {
        TypeExprView::Generic(name) => if tr.contains_key(name) {
            TypeExprView::Generic(tr[name])
        } else {
            t
        },
        TypeExprView::Named {
            element,
            type_arguments,
            multiplicity_arguments,
            value_arguments,
            source_info,
        } => TypeExprView::Named {
            element,
            type_arguments: Seq::new(
                type_arguments.len(),
                |i: int| if 0 <= i < type_arguments.len() { rename_type(tr, mr, type_arguments[i]) } else { TypeExprView::Unresolved },
            ),
            multiplicity_arguments: multiplicity_arguments.map_values(|m: MultView| rename_mult(mr, m)),
            value_arguments,
            source_info,
        },
        TypeExprView::FunctionType { parameters, return_type, return_multiplicity } =>
            TypeExprView::FunctionType {
            parameters: Seq::new(
                parameters.len(),
                |i: int| if 0 <= i < parameters.len() { (rename_type(tr, mr, parameters[i].0), rename_mult(mr, parameters[i].1)) } else { (TypeExprView::Unresolved, MultView::PureOne) },
            ),
            return_type: Box::new(rename_type(tr, mr, *return_type)),
            return_multiplicity: rename_mult(mr, return_multiplicity),
        },
        TypeExprView::AlgebraUnion(a, b) => TypeExprView::AlgebraUnion(
            Box::new(rename_type(tr, mr, *a)),
            Box::new(rename_type(tr, mr, *b)),
        ),
        TypeExprView::Relation(cols) => TypeExprView::Relation(
            Seq::new(
                cols.len(),
                |i: int| if 0 <= i < cols.len() { (cols[i].0, rename_type(tr, mr, cols[i].1), rename_mult(mr, cols[i].2)) } else { (Seq::empty(), TypeExprView::Unresolved, MultView::PureOne) },
            ),
        ),
        _ => t,
    }
}

/// Renaming with no renames changes nothing.
pub proof fn lemma_rename_empty(t: TypeExprView)
    ensures
        rename_type(Map::empty(), Map::empty(), t) == t,
    decreases t,
{
    let e = Map::<Seq<char>, Seq<char>>::empty();
    match t {
        TypeExprView::Named { type_arguments, multiplicity_arguments, .. } => {
            let r = rename_type(e, e, t);
            assert forall|i: int| 0 <= i < type_arguments.len() implies r->type_arguments[i]
                == type_arguments[i] by {
                lemma_rename_empty(type_arguments[i]);
            }
            assert(r->type_arguments =~= type_arguments);
            assert(r->multiplicity_arguments =~= multiplicity_arguments);
        },
        TypeExprView::FunctionType { parameters, return_type, .. } => {
            let r = rename_type(e, e, t);
            assert forall|i: int| 0 <= i < parameters.len() implies r->parameters[i]
                == parameters[i] by {
                lemma_rename_empty(parameters[i].0);
            }
            assert(r->parameters =~= parameters);
            lemma_rename_empty(*return_type);
        },
        TypeExprView::AlgebraUnion(a, b) => {
            lemma_rename_empty(*a);
            lemma_rename_empty(*b);
        },
        TypeExprView::Relation(cols) => {
            let r = rename_type(e, e, t);
            assert forall|i: int| 0 <= i < cols.len() implies r->Relation_0[i] == cols[i] by {
                lemma_rename_empty(cols[i].1);
            }
            assert(r->Relation_0 =~= cols);
        },
        _ => {},
    }
}

/// Applies a multiplicity-parameter rename map to a multiplicity.
pub fn rename_callee_multiplicity(m: &Multiplicity, mult_rename: &Vec<(String, String)>) -> (r:
    Multiplicity)
    requires
        names_unique(mult_rename@),
    ensures
        r@ == rename_mult(assoc_view(mult_rename@), m@),
{
    if mult_rename.len() == 0 {
        assert(assoc_view(mult_rename@) =~= Map::<Seq<char>, Seq<char>>::empty());
        return m.duplicate();
    }
    match m {
        Multiplicity::Variable(name) => match lookup_binding(mult_rename, name.as_str()) {
            Some(fresh) => Multiplicity::Variable(fresh.clone()),
            None => m.duplicate(),
        },
        _ => m.duplicate(),
    }
}

fn rename_types(
    v: &Vec<TypeExpr>,
    type_rename: &Vec<(String, String)>,
    mult_rename: &Vec<(String, String)>,
) -> (r: Vec<TypeExpr>)
    requires
        names_unique(type_rename@),
        names_unique(mult_rename@),
    ensures
        r.len() == v.len(),
        forall|j: int|
            0 <= j < v.len() ==> #[trigger] te_view(r@[j]) == rename_type(
                assoc_view(type_rename@),
                assoc_view(mult_rename@),
                te_view(v@[j]),
            ),
    decreases v,
{
    let mut r: Vec<TypeExpr> = Vec::new();
    let mut i: usize = 0;
    while i < v.len()
        invariant
            names_unique(type_rename@),
            names_unique(mult_rename@),
            i <= v.len(),
            r.len() == i,
            forall|j: int|
                0 <= j < i ==> #[trigger] te_view(r@[j]) == rename_type(
                    assoc_view(type_rename@),
                    assoc_view(mult_rename@),
                    te_view(v@[j]),
                ),
        decreases v.len() - i,
    {
        proof {
            vstd::std_specs::vec::axiom_vec_index_decreases(*v, i as int);
        }
        r.push(rename_callee_typeexpr(&v[i], type_rename, mult_rename));
        i = i + 1;
    }
    r
}

fn rename_mults(v: &Vec<Multiplicity>, mult_rename: &Vec<(String, String)>) -> (r: Vec<Multiplicity>)
    requires
        names_unique(mult_rename@),
    ensures
        mults_view(r@) == mults_view(v@).map_values(|m: MultView| rename_mult(assoc_view(mult_rename@), m)),
{
    let mut r: Vec<Multiplicity> = Vec::new();
    let mut i: usize = 0;
    while i < v.len()
        invariant
            names_unique(mult_rename@),
            i <= v.len(),
            r.len() == i,
            forall|j: int|
                0 <= j < i ==> #[trigger] r@[j]@ == rename_mult(assoc_view(mult_rename@), v@[j]@),
        decreases v.len() - i,
    {
        r.push(rename_callee_multiplicity(&v[i], mult_rename));
        i = i + 1;
    }
    assert(mults_view(r@) =~= mults_view(v@).map_values(
        |m: MultView| rename_mult(assoc_view(mult_rename@), m),
    ));
    r
}

fn rename_params(
    v: &Vec<(TypeExpr, Multiplicity)>,
    type_rename: &Vec<(String, String)>,
    mult_rename: &Vec<(String, String)>,
) -> (r: Vec<(TypeExpr, Multiplicity)>)
    requires
        names_unique(type_rename@),
        names_unique(mult_rename@),
    ensures
        r.len() == v.len(),
        forall|j: int|
            0 <= j < v.len() ==> #[trigger] te_view(r@[j].0) == rename_type(
                assoc_view(type_rename@),
                assoc_view(mult_rename@),
                te_view(v@[j].0),
            ) && r@[j].1@ == rename_mult(assoc_view(mult_rename@), v@[j].1@),
    decreases v,
{
    let mut r: Vec<(TypeExpr, Multiplicity)> = Vec::new();
    let mut i: usize = 0;
    while i < v.len()
        invariant
            names_unique(type_rename@),
            names_unique(mult_rename@),
            i <= v.len(),
            r.len() == i,
            forall|j: int|
                0 <= j < i ==> #[trigger] te_view(r@[j].0) == rename_type(
                    assoc_view(type_rename@),
                    assoc_view(mult_rename@),
                    te_view(v@[j].0),
                ) && r@[j].1@ == rename_mult(assoc_view(mult_rename@), v@[j].1@),
        decreases v.len() - i,
    {
        proof {
            vstd::std_specs::vec::axiom_vec_index_decreases(*v, i as int);
        }
        let t = rename_callee_typeexpr(&v[i].0, type_rename, mult_rename);
        let m = rename_callee_multiplicity(&v[i].1, mult_rename);
        r.push((t, m));
        i = i + 1;
    }
    r
}

fn rename_columns(
    v: &Vec<RelationColumnTypeExpr>,
    type_rename: &Vec<(String, String)>,
    mult_rename: &Vec<(String, String)>,
) -> (r: Vec<RelationColumnTypeExpr>)
    requires
        names_unique(type_rename@),
        names_unique(mult_rename@),
    ensures
        r.len() == v.len(),
        forall|j: int|
            0 <= j < v.len() ==> #[trigger] r@[j].name@ == v@[j].name@ && te_view(r@[j].type_expr)
                == rename_type(
                assoc_view(type_rename@),
                assoc_view(mult_rename@),
                te_view(v@[j].type_expr),
            ) && r@[j].multiplicity@ == rename_mult(assoc_view(mult_rename@), v@[j].multiplicity@),
    decreases v,
{
    let mut r: Vec<RelationColumnTypeExpr> = Vec::new();
    let mut i: usize = 0;
    while i < v.len()
        invariant
            names_unique(type_rename@),
            names_unique(mult_rename@),
            i <= v.len(),
            r.len() == i,
            forall|j: int|
                0 <= j < i ==> #[trigger] r@[j].name@ == v@[j].name@ && te_view(r@[j].type_expr)
                    == rename_type(
                    assoc_view(type_rename@),
                    assoc_view(mult_rename@),
                    te_view(v@[j].type_expr),
                ) && r@[j].multiplicity@ == rename_mult(assoc_view(mult_rename@), v@[j].multiplicity@),
        decreases v.len() - i,
    {
        proof {
            vstd::std_specs::vec::axiom_vec_index_decreases(*v, i as int);
        }
        let c = RelationColumnTypeExpr {
            name: v[i].name.clone(),
            type_expr: rename_callee_typeexpr(&v[i].type_expr, type_rename, mult_rename),
            multiplicity: rename_callee_multiplicity(&v[i].multiplicity, mult_rename),
        };
        r.push(c);
        i = i + 1;
    }
    r
}

/// Applies call-site rename maps to a type expression: each type
/// parameter listed in `type_rename` and each multiplicity parameter
/// listed in `mult_rename` takes its fresh name, at any depth.
pub fn rename_callee_typeexpr(
    te: &TypeExpr,
    type_rename: &Vec<(String, String)>,
    mult_rename: &Vec<(String, String)>,
) -> (r: TypeExpr)
    requires
        names_unique(type_rename@),
        names_unique(mult_rename@),
    ensures
        r@ == rename_type(assoc_view(type_rename@), assoc_view(mult_rename@), te@),
    decreases te,
{
    proof {
        crate::types::lemma_te_view_parts(*te);
    }
    let ghost tr = assoc_view(type_rename@);
    let ghost mr = assoc_view(mult_rename@);
    if type_rename.len() == 0 && mult_rename.len() == 0 {
        proof {
            assert(tr =~= Map::<Seq<char>, Seq<char>>::empty());
            assert(mr =~= Map::<Seq<char>, Seq<char>>::empty());
            lemma_rename_empty(te@);
        }
        return te.duplicate();
    }
    match te {
        TypeExpr::Generic(name) => match lookup_binding(type_rename, name.as_str()) {
            Some(fresh) => TypeExpr::Generic(fresh.clone()),
            None => te.duplicate(),
        },
        TypeExpr::Named {
            element,
            type_arguments,
            multiplicity_arguments,
            value_arguments,
            source_info,
        } => {
            let ta = rename_types(type_arguments, type_rename, mult_rename);
            let ma = rename_mults(multiplicity_arguments, mult_rename);
            let va = crate::types::dup_consts(value_arguments);
            let si = crate::types::dup_source(source_info);
            let r = TypeExpr::Named {
                element: *element,
                type_arguments: ta,
                multiplicity_arguments: ma,
                value_arguments: va,
                source_info: si,
            };
            proof {
                crate::types::lemma_te_view_parts(r);
                let want = rename_type(tr, mr, te@);
                assert(r@->type_arguments =~= want->type_arguments) by {
                    assert forall|i: int| 0 <= i < ta.len() implies r@->type_arguments[i]
                        == want->type_arguments[i] by {
                        assert(r@->type_arguments[i] == te_view(ta@[i]));
                        assert(te@->type_arguments[i] == te_view(type_arguments@[i]));
                    }
                }
            }
            r
        },
        TypeExpr::FunctionType { parameters, return_type, return_multiplicity } => {
            let ps = rename_params(parameters, type_rename, mult_rename);
            let rt = rename_callee_typeexpr(&**return_type, type_rename, mult_rename);
            let rm = rename_callee_multiplicity(return_multiplicity, mult_rename);
            let r = TypeExpr::FunctionType {
                parameters: ps,
                return_type: Box::new(rt),
                return_multiplicity: rm,
            };
            proof {
                crate::types::lemma_te_view_parts(r);
                let want = rename_type(tr, mr, te@);
                assert(r@->parameters =~= want->parameters) by {
                    assert forall|i: int| 0 <= i < ps.len() implies r@->parameters[i]
                        == want->parameters[i] by {
                        assert(r@->parameters[i] == (te_view(ps@[i].0), ps@[i].1@));
                        assert(te@->parameters[i] == (te_view(parameters@[i].0), parameters@[i].1@));
                    }
                }
            }
            r
        },
        TypeExpr::AlgebraUnion(a, b) => {
            let a2 = rename_callee_typeexpr(&**a, type_rename, mult_rename);
            let b2 = rename_callee_typeexpr(&**b, type_rename, mult_rename);
            TypeExpr::AlgebraUnion(Box::new(a2), Box::new(b2))
        },
        TypeExpr::Relation(cols) => {
            let cs = rename_columns(cols, type_rename, mult_rename);
            let r = TypeExpr::Relation(cs);
            proof {
                crate::types::lemma_te_view_parts(r);
                let want = rename_type(tr, mr, te@);
                assert(r@->Relation_0 =~= want->Relation_0) by {
                    assert forall|i: int| 0 <= i < cs.len() implies r@->Relation_0[i]
                        == want->Relation_0[i] by {
                        assert(r@->Relation_0[i] == (cs@[i].name@, te_view(cs@[i].type_expr), cs@[i].multiplicity@));
                        assert(te@->Relation_0[i] == (cols@[i].name@, te_view(cols@[i].type_expr), cols@[i].multiplicity@));
                    }
                }
            }
            r
        },
        TypeExpr::Unresolved => TypeExpr::Unresolved,
    }
}

/// A parameter with its type and multiplicity renamed through the
/// call-site maps; name and source location unchanged.
pub fn rename_callee_parameter(
    p: &Parameter,
    type_rename: &Vec<(String, String)>,
    mult_rename: &Vec<(String, String)>,
) -> (r: Parameter)
    requires
        names_unique(type_rename@),
        names_unique(mult_rename@),
    ensures
        r@ == (ParameterView {
            type_expr: rename_type(assoc_view(type_rename@), assoc_view(mult_rename@), p@.type_expr),
            multiplicity: rename_mult(assoc_view(mult_rename@), p@.multiplicity),
            ..p@
        }),
{
    Parameter {
        name: p.name.clone(),
        type_expr: rename_callee_typeexpr(&p.type_expr, type_rename, mult_rename),
        multiplicity: rename_callee_multiplicity(&p.multiplicity, mult_rename),
        source_info: crate::types::dup_source(&p.source_info),
    }
}


// ---------------------------------------------------------------------------
// Collecting a callee's parameters
// ---------------------------------------------------------------------------

/// The type parameter `x` occurs in `t`.
pub open spec fn mentions_type_param(t: TypeExprView, x: Seq<char>) -> bool
    decreases t,
{
    match t {
        TypeExprView::Generic(n) => n == x,
        TypeExprView::Named { type_arguments, .. } => exists|i: int|
            0 <= i < type_arguments.len() && mentions_type_param(#[trigger] type_arguments[i], x),
        TypeExprView::FunctionType { parameters, return_type, .. } => (exists|i: int|
            0 <= i < parameters.len() && mentions_type_param(#[trigger] parameters[i].0, x))
            || mentions_type_param(*return_type, x),
        TypeExprView::AlgebraUnion(a, b) => mentions_type_param(*a, x) || mentions_type_param(*b, x),
        TypeExprView::Relation(cols) => exists|i: int|
            0 <= i < cols.len() && mentions_type_param(#[trigger] cols[i].1, x),
        _ => false,
    }
}

/// The multiplicity parameter `x` occurs in `t`: as a multiplicity
/// argument, a function-type parameter or return multiplicity, or a
/// relation column's multiplicity, at any depth.
pub open spec fn mentions_mult_param(t: TypeExprView, x: Seq<char>) -> bool
    decreases t,
{
    match t {
        TypeExprView::Named { type_arguments, multiplicity_arguments, .. } => (exists|i: int|
            0 <= i < multiplicity_arguments.len() && #[trigger] multiplicity_arguments[i]
                == MultView::Variable(x)) || exists|i: int|
            0 <= i < type_arguments.len() && mentions_mult_param(#[trigger] type_arguments[i], x),
        TypeExprView::FunctionType { parameters, return_type, return_multiplicity } => (exists|i: int|
            0 <= i < parameters.len() && (mentions_mult_param(#[trigger] parameters[i].0, x)
                || parameters[i].1 == MultView::Variable(x))) || mentions_mult_param(*return_type, x)
            || return_multiplicity == MultView::Variable(x),
        TypeExprView::AlgebraUnion(a, b) => mentions_mult_param(*a, x) || mentions_mult_param(*b, x),
        TypeExprView::Relation(cols) => exists|i: int|
            0 <= i < cols.len() && (mentions_mult_param(#[trigger] cols[i].1, x) || cols[i].2
                == MultView::Variable(x)),
        _ => false,
    }
}

/// No name occurs twice in a list of names.
pub open spec fn names_distinct(s: Seq<String>) -> bool {
    forall|i: int, j: int| 0 <= i < j < s.len() ==> s[i]@ != s[j]@
}

/// Adds `n` to a list of distinct names unless it is there already.
fn add_name(names: &mut Vec<String>, n: &String)
    requires
        names_distinct(old(names)@),
    ensures
        names_distinct(final(names)@),
        name_set(final(names)@) == name_set(old(names)@).insert(n@),
{
    if !seen_contains(names, n.as_str()) {
        let ghost before = names@;
        names.push(n.clone());
        proof {
            assert(names_distinct(names@)) by {
                assert forall|i: int, j: int| 0 <= i < j < names@.len() implies names@[i]@ != names@[j]@ by {
                    assert(names@[i] == before[i]);
                    if j < before.len() {
                        assert(names@[j] == before[j]);
                    }
                }
            }
            assert(name_set(names@) =~= name_set(before).insert(n@)) by {
                assert forall|x: Seq<char>| name_set(names@).contains(x) implies name_set(before).insert(
                    n@,
                ).contains(x) by {
                    let i = choose|i: int| 0 <= i < names@.len() && names@[i]@ == x;
                    if i < before.len() {
                        assert(before[i] == names@[i]);
                    }
                }
                assert forall|x: Seq<char>| name_set(before).insert(n@).contains(x) implies name_set(
                    names@,
                ).contains(x) by {
                    if x == n@ {
                        assert(names@[names@.len() - 1]@ == x);
                    } else {
                        let i = choose|i: int| 0 <= i < before.len() && before[i]@ == x;
                        assert(names@[i] == before[i]);
                    }
                }
            }
        }
    } else {
        assert(name_set(names@) =~= name_set(names@).insert(n@));
    }
}

/// Adds the multiplicity parameter of `m`, if it is one.
fn add_mult_name(names: &mut Vec<String>, m: &Multiplicity)
    requires
        names_distinct(old(names)@),
    ensures
        names_distinct(final(names)@),
        forall|x: Seq<char>|
            #[trigger] name_set(final(names)@).contains(x) <==> name_set(old(names)@).contains(x) || m@
                == MultView::Variable(x),
{
    match m {
        Multiplicity::Variable(n) => {
            add_name(names, n);
        },
        _ => {},
    }
}

fn collect_in_types(v: &Vec<TypeExpr>, type_names: &mut Vec<String>, mult_names: &mut Vec<String>)
    requires
        names_distinct(old(type_names)@),
        names_distinct(old(mult_names)@),
    ensures
        names_distinct(final(type_names)@),
        names_distinct(final(mult_names)@),
        forall|x: Seq<char>|
            #[trigger] name_set(final(type_names)@).contains(x) <==> name_set(old(type_names)@).contains(x)
                || exists|k: int| 0 <= k < v.len() && #[trigger] mentions_type_param(te_view(v@[k]), x),
        forall|x: Seq<char>|
            #[trigger] name_set(final(mult_names)@).contains(x) <==> name_set(old(mult_names)@).contains(x)
                || exists|k: int| 0 <= k < v.len() && #[trigger] mentions_mult_param(te_view(v@[k]), x),
    decreases v,
{
    let ghost t0 = name_set(type_names@);
    let ghost m0 = name_set(mult_names@);
    let mut i: usize = 0;
    while i < v.len()
        invariant
            i <= v.len(),
            names_distinct(type_names@),
            names_distinct(mult_names@),
            forall|x: Seq<char>|
                #[trigger] name_set(type_names@).contains(x) <==> t0.contains(x) || exists|k: int|
                    0 <= k < i && #[trigger] mentions_type_param(te_view(v@[k]), x),
            forall|x: Seq<char>|
                #[trigger] name_set(mult_names@).contains(x) <==> m0.contains(x) || exists|k: int|
                    0 <= k < i && #[trigger] mentions_mult_param(te_view(v@[k]), x),
        decreases v.len() - i,
    {
        proof {
            vstd::std_specs::vec::axiom_vec_index_decreases(*v, i as int);
        }
        let ghost tb = name_set(type_names@);
        let ghost mbb = name_set(mult_names@);
        collect_generic_names_in_typeexpr(&v[i], type_names, mult_names);
        proof {
            assert forall|x: Seq<char>| #[trigger] name_set(type_names@).contains(x) <==> t0.contains(x)
                || exists|k: int| 0 <= k < i + 1 && #[trigger] mentions_type_param(te_view(v@[k]), x) by {
                if mentions_type_param(te_view(v@[i as int]), x) {
                }
                if exists|k: int| 0 <= k < i + 1 && #[trigger] mentions_type_param(te_view(v@[k]), x) {
                    let k = choose|k: int| 0 <= k < i + 1 && #[trigger] mentions_type_param(te_view(v@[k]), x);
                    if k < i {
                        assert(tb.contains(x));
                    }
                }
            }
            assert forall|x: Seq<char>| #[trigger] name_set(mult_names@).contains(x) <==> m0.contains(x)
                || exists|k: int| 0 <= k < i + 1 && #[trigger] mentions_mult_param(te_view(v@[k]), x) by {
                if mentions_mult_param(te_view(v@[i as int]), x) {
                }
                if exists|k: int| 0 <= k < i + 1 && #[trigger] mentions_mult_param(te_view(v@[k]), x) {
                    let k = choose|k: int| 0 <= k < i + 1 && #[trigger] mentions_mult_param(te_view(v@[k]), x);
                    if k < i {
                        assert(mbb.contains(x));
                    }
                }
            }
        }
        i = i + 1;
    }
}

fn collect_in_params(
    v: &Vec<(TypeExpr, Multiplicity)>,
    type_names: &mut Vec<String>,
    mult_names: &mut Vec<String>,
)
    requires
        names_distinct(old(type_names)@),
        names_distinct(old(mult_names)@),
    ensures
        names_distinct(final(type_names)@),
        names_distinct(final(mult_names)@),
        forall|x: Seq<char>|
            #[trigger] name_set(final(type_names)@).contains(x) <==> name_set(old(type_names)@).contains(x)
                || exists|k: int| 0 <= k < v.len() && #[trigger] mentions_type_param(te_view(v@[k].0), x),
        forall|x: Seq<char>|
            #[trigger] name_set(final(mult_names)@).contains(x) <==> name_set(old(mult_names)@).contains(x)
                || exists|k: int|
                0 <= k < v.len() && (#[trigger] mentions_mult_param(te_view(v@[k].0), x) || v@[k].1@
                    == MultView::Variable(x)),
    decreases v,
{
    let ghost t0 = name_set(type_names@);
    let ghost m0 = name_set(mult_names@);
    let mut i: usize = 0;
    while i < v.len()
        invariant
            i <= v.len(),
            names_distinct(type_names@),
            names_distinct(mult_names@),
            forall|x: Seq<char>|
                #[trigger] name_set(type_names@).contains(x) <==> t0.contains(x) || exists|k: int|
                    0 <= k < i && #[trigger] mentions_type_param(te_view(v@[k].0), x),
            forall|x: Seq<char>|
                #[trigger] name_set(mult_names@).contains(x) <==> m0.contains(x) || exists|k: int|
                    0 <= k < i && (#[trigger] mentions_mult_param(te_view(v@[k].0), x) || v@[k].1@
                        == MultView::Variable(x)),
        decreases v.len() - i,
    {
        proof {
            vstd::std_specs::vec::axiom_vec_index_decreases(*v, i as int);
        }
        let ghost tb = name_set(type_names@);
        let ghost mbb = name_set(mult_names@);
        collect_generic_names_in_typeexpr(&v[i].0, type_names, mult_names);
        add_mult_name(mult_names, &v[i].1);
        proof {
            assert forall|x: Seq<char>| #[trigger] name_set(type_names@).contains(x) <==> t0.contains(x)
                || exists|k: int| 0 <= k < i + 1 && #[trigger] mentions_type_param(te_view(v@[k].0), x) by {
                if mentions_type_param(te_view(v@[i as int].0), x) {
                }
                if exists|k: int| 0 <= k < i + 1 && #[trigger] mentions_type_param(te_view(v@[k].0), x) {
                    let k = choose|k: int| 0 <= k < i + 1 && #[trigger] mentions_type_param(te_view(v@[k].0), x);
                    if k < i {
                        assert(tb.contains(x));
                    }
                }
            }
            assert forall|x: Seq<char>| #[trigger] name_set(mult_names@).contains(x) <==> m0.contains(x)
                || exists|k: int|
                0 <= k < i + 1 && (#[trigger] mentions_mult_param(te_view(v@[k].0), x) || v@[k].1@
                    == MultView::Variable(x)) by {
                if mentions_mult_param(te_view(v@[i as int].0), x) || v@[i as int].1@ == MultView::Variable(x) {
                }
                if exists|k: int|
                    0 <= k < i + 1 && (#[trigger] mentions_mult_param(te_view(v@[k].0), x) || v@[k].1@
                        == MultView::Variable(x)) {
                    let k = choose|k: int|
                        0 <= k < i + 1 && (#[trigger] mentions_mult_param(te_view(v@[k].0), x) || v@[k].1@
                            == MultView::Variable(x));
                    if k < i {
                        assert(mbb.contains(x));
                    }
                }
            }
        }
        i = i + 1;
    }
}

fn collect_in_columns(
    v: &Vec<RelationColumnTypeExpr>,
    type_names: &mut Vec<String>,
    mult_names: &mut Vec<String>,
)
    requires
        names_distinct(old(type_names)@),
        names_distinct(old(mult_names)@),
    ensures
        names_distinct(final(type_names)@),
        names_distinct(final(mult_names)@),
        forall|x: Seq<char>|
            #[trigger] name_set(final(type_names)@).contains(x) <==> name_set(old(type_names)@).contains(x)
                || exists|k: int|
                0 <= k < v.len() && #[trigger] mentions_type_param(te_view(v@[k].type_expr), x),
        forall|x: Seq<char>|
            #[trigger] name_set(final(mult_names)@).contains(x) <==> name_set(old(mult_names)@).contains(x)
                || exists|k: int|
                0 <= k < v.len() && (#[trigger] mentions_mult_param(te_view(v@[k].type_expr), x)
                    || v@[k].multiplicity@ == MultView::Variable(x)),
    decreases v,
{
    let ghost t0 = name_set(type_names@);
    let ghost m0 = name_set(mult_names@);
    let mut i: usize = 0;
    while i < v.len()
        invariant
            i <= v.len(),
            names_distinct(type_names@),
            names_distinct(mult_names@),
            forall|x: Seq<char>|
                #[trigger] name_set(type_names@).contains(x) <==> t0.contains(x) || exists|k: int|
                    0 <= k < i && #[trigger] mentions_type_param(te_view(v@[k].type_expr), x),
            forall|x: Seq<char>|
                #[trigger] name_set(mult_names@).contains(x) <==> m0.contains(x) || exists|k: int|
                    0 <= k < i && (#[trigger] mentions_mult_param(te_view(v@[k].type_expr), x)
                        || v@[k].multiplicity@ == MultView::Variable(x)),
        decreases v.len() - i,
    {
        proof {
            vstd::std_specs::vec::axiom_vec_index_decreases(*v, i as int);
        }
        let ghost tb = name_set(type_names@);
        let ghost mbb = name_set(mult_names@);
        collect_generic_names_in_typeexpr(&v[i].type_expr, type_names, mult_names);
        add_mult_name(mult_names, &v[i].multiplicity);
        proof {
            assert forall|x: Seq<char>| #[trigger] name_set(type_names@).contains(x) <==> t0.contains(x)
                || exists|k: int|
                0 <= k < i + 1 && #[trigger] mentions_type_param(te_view(v@[k].type_expr), x) by {
                if mentions_type_param(te_view(v@[i as int].type_expr), x) {
                }
                if exists|k: int| 0 <= k < i + 1 && #[trigger] mentions_type_param(te_view(v@[k].type_expr), x) {
                    let k = choose|k: int|
                        0 <= k < i + 1 && #[trigger] mentions_type_param(te_view(v@[k].type_expr), x);
                    if k < i {
                        assert(tb.contains(x));
                    }
                }
            }
            assert forall|x: Seq<char>| #[trigger] name_set(mult_names@).contains(x) <==> m0.contains(x)
                || exists|k: int|
                0 <= k < i + 1 && (#[trigger] mentions_mult_param(te_view(v@[k].type_expr), x)
                    || v@[k].multiplicity@ == MultView::Variable(x)) by {
                if mentions_mult_param(te_view(v@[i as int].type_expr), x) || v@[i as int].multiplicity@
                    == MultView::Variable(x) {
                }
                if exists|k: int|
                    0 <= k < i + 1 && (#[trigger] mentions_mult_param(te_view(v@[k].type_expr), x)
                        || v@[k].multiplicity@ == MultView::Variable(x)) {
                    let k = choose|k: int|
                        0 <= k < i + 1 && (#[trigger] mentions_mult_param(te_view(v@[k].type_expr), x)
                            || v@[k].multiplicity@ == MultView::Variable(x));
                    if k < i {
                        assert(mbb.contains(x));
                    }
                }
            }
        }
        i = i + 1;
    }
}

fn collect_in_mults(v: &Vec<Multiplicity>, mult_names: &mut Vec<String>)
    requires
        names_distinct(old(mult_names)@),
    ensures
        names_distinct(final(mult_names)@),
        forall|x: Seq<char>|
            #[trigger] name_set(final(mult_names)@).contains(x) <==> name_set(old(mult_names)@).contains(x)
                || exists|k: int| 0 <= k < v.len() && #[trigger] mults_view(v@)[k] == MultView::Variable(x),
{
    let ghost m0 = name_set(mult_names@);
    let mut j: usize = 0;
    while j < v.len()
        invariant
            j <= v.len(),
            names_distinct(mult_names@),
            forall|x: Seq<char>|
                #[trigger] name_set(mult_names@).contains(x) <==> m0.contains(x) || exists|k: int|
                    0 <= k < j && #[trigger] mults_view(v@)[k] == MultView::Variable(x),
        decreases v.len() - j,
    {
        let ghost mb = name_set(mult_names@);
        add_mult_name(mult_names, &v[j]);
        proof {
            assert(mults_view(v@)[j as int] == v@[j as int]@);
            assert forall|x: Seq<char>| #[trigger] name_set(mult_names@).contains(x) <==> m0.contains(x)
                || exists|k: int| 0 <= k < j + 1 && #[trigger] mults_view(v@)[k] == MultView::Variable(x) by {
                if exists|k: int| 0 <= k < j + 1 && #[trigger] mults_view(v@)[k] == MultView::Variable(x) {
                    let k = choose|k: int| 0 <= k < j + 1 && #[trigger] mults_view(v@)[k] == MultView::Variable(x);
                    if k < j {
                        assert(mb.contains(x));
                    }
                }
            }
        }
        j = j + 1;
    }
}



/// One unfolding of `mentions_type_param` on a reference type.
proof fn lemma_mentions_named(tv: TypeExprView, x: Seq<char>)
    requires
        tv is Named,
    ensures
        mentions_type_param(tv, x) == exists|k: int|
            0 <= k < tv->type_arguments.len() && mentions_type_param(tv->type_arguments[k], x),
{
}

/// One unfolding of `mentions_type_param` on a relation type.
proof fn lemma_mentions_relation(tv: TypeExprView, x: Seq<char>)
    requires
        tv is Relation,
    ensures
        mentions_type_param(tv, x) == exists|k: int|
            0 <= k < tv->Relation_0.len() && mentions_type_param(tv->Relation_0[k].1, x),
{
}

/// One unfolding of `mentions_type_param` on a function type.
proof fn lemma_mentions_fn(tv: TypeExprView, x: Seq<char>)
    requires
        tv is FunctionType,
    ensures
        mentions_type_param(tv, x) == ((exists|k: int|
            0 <= k < tv->parameters.len() && mentions_type_param(tv->parameters[k].0, x))
            || mentions_type_param(*tv->return_type, x)),
{
}

/// One unfolding of `mentions_mult_param` on a reference type.
proof fn lemma_mentions_mult_named(tv: TypeExprView, x: Seq<char>)
    requires
        tv is Named,
    ensures
        mentions_mult_param(tv, x) == ((exists|k: int|
            0 <= k < tv->multiplicity_arguments.len() && tv->multiplicity_arguments[k]
                == MultView::Variable(x)) || exists|k: int|
            0 <= k < tv->type_arguments.len() && mentions_mult_param(tv->type_arguments[k], x)),
{
}

/// One unfolding of `mentions_mult_param` on a function type.
proof fn lemma_mentions_mult_fn(tv: TypeExprView, x: Seq<char>)
    requires
        tv is FunctionType,
    ensures
        mentions_mult_param(tv, x) == ((exists|k: int|
            0 <= k < tv->parameters.len() && (mentions_mult_param(tv->parameters[k].0, x)
                || tv->parameters[k].1 == MultView::Variable(x))) || mentions_mult_param(
            *tv->return_type,
            x,
        ) || tv->return_multiplicity == MultView::Variable(x)),
{
}

/// One unfolding of `mentions_mult_param` on a relation type.
proof fn lemma_mentions_mult_relation(tv: TypeExprView, x: Seq<char>)
    requires
        tv is Relation,
    ensures
        mentions_mult_param(tv, x) == exists|k: int|
            0 <= k < tv->Relation_0.len() && (mentions_mult_param(tv->Relation_0[k].1, x)
                || tv->Relation_0[k].2 == MultView::Variable(x)),
{
}

/// The parameters a function type mentions are those of its parameters
/// and its return.
proof fn lemma_fn_mentions(t: TypeExpr)
    ensures
        t matches TypeExpr::FunctionType { parameters, return_type, return_multiplicity } ==> {
            &&& forall|x: Seq<char>|
                #[trigger] mentions_type_param(t@, x) <==> (exists|k: int|
                    0 <= k < parameters.len() && #[trigger] mentions_type_param(te_view(parameters@[k].0), x))
                    || mentions_type_param(te_view(*return_type), x)
            &&& forall|x: Seq<char>|
                #[trigger] mentions_mult_param(t@, x) <==> (exists|k: int|
                    0 <= k < parameters.len() && (#[trigger] mentions_mult_param(te_view(parameters@[k].0), x)
                        || parameters@[k].1@ == MultView::Variable(x))) || mentions_mult_param(
                    te_view(*return_type),
                    x,
                ) || return_multiplicity@ == MultView::Variable(x)
        },
{
    crate::types::lemma_te_view_parts(t);
    match t {
        TypeExpr::FunctionType { parameters, return_type, return_multiplicity } => {
            let tv = t@;
            assert forall|x: Seq<char>| #[trigger] mentions_type_param(tv, x) <==> (exists|k: int|
                0 <= k < parameters.len() && #[trigger] mentions_type_param(te_view(parameters@[k].0), x))
                || mentions_type_param(te_view(*return_type), x) by {
                lemma_mentions_fn(tv, x);
                if exists|k: int| 0 <= k < parameters.len() && #[trigger] mentions_type_param(te_view(parameters@[k].0), x) {
                    let k = choose|k: int| 0 <= k < parameters.len() && #[trigger] mentions_type_param(te_view(parameters@[k].0), x);
                    assert(tv->parameters[k] == (te_view(parameters@[k].0), parameters@[k].1@));
                }
                if exists|k: int| 0 <= k < tv->parameters.len() && mentions_type_param(tv->parameters[k].0, x) {
                    let k = choose|k: int| 0 <= k < tv->parameters.len() && mentions_type_param(tv->parameters[k].0, x);
                    assert(tv->parameters[k] == (te_view(parameters@[k].0), parameters@[k].1@));
                }
            }
            assert forall|x: Seq<char>| #[trigger] mentions_mult_param(tv, x) <==> (exists|k: int|
                0 <= k < parameters.len() && (#[trigger] mentions_mult_param(te_view(parameters@[k].0), x)
                    || parameters@[k].1@ == MultView::Variable(x))) || mentions_mult_param(
                te_view(*return_type),
                x,
            ) || return_multiplicity@ == MultView::Variable(x) by {
                lemma_mentions_mult_fn(tv, x);
                assert forall|k: int| 0 <= k < parameters.len() implies (#[trigger] tv->parameters[k]).0
                    == te_view(parameters@[k].0) && tv->parameters[k].1 == parameters@[k].1@ by {
                    assert(tv->parameters[k] == (te_view(parameters@[k].0), parameters@[k].1@));
                }
                if exists|k: int| #![trigger tv->parameters[k]] 0 <= k < tv->parameters.len() && (mentions_mult_param(tv->parameters[k].0, x) || tv->parameters[k].1 == MultView::Variable(x)) {
                    let k = choose|k: int| #![trigger tv->parameters[k]] 0 <= k < tv->parameters.len() && (mentions_mult_param(tv->parameters[k].0, x) || tv->parameters[k].1 == MultView::Variable(x));
                    assert(tv->parameters[k].0 == te_view(parameters@[k].0));
                    assert(mentions_mult_param(te_view(parameters@[k].0), x) || parameters@[k].1@ == MultView::Variable(x));
                }
                if exists|k: int| #![trigger parameters@[k]] 0 <= k < parameters.len() && (mentions_mult_param(te_view(parameters@[k].0), x) || parameters@[k].1@ == MultView::Variable(x)) {
                    let k = choose|k: int| #![trigger parameters@[k]] 0 <= k < parameters.len() && (mentions_mult_param(te_view(parameters@[k].0), x) || parameters@[k].1@ == MultView::Variable(x));
                    assert(tv->parameters[k].0 == te_view(parameters@[k].0));
                    assert(mentions_mult_param(tv->parameters[k].0, x) || tv->parameters[k].1 == MultView::Variable(x));
                }
            }
        },
        _ => {},
    }
}

/// The parameters a reference type mentions are those of its arguments.
proof fn lemma_named_mentions(t: TypeExpr)
    ensures
        t matches TypeExpr::Named { type_arguments, multiplicity_arguments, .. } ==> {
            &&& forall|x: Seq<char>|
                #[trigger] mentions_type_param(t@, x) <==> exists|k: int|
                    0 <= k < type_arguments.len() && #[trigger] mentions_type_param(
                        te_view(type_arguments@[k]),
                        x,
                    )
            &&& forall|x: Seq<char>|
                #[trigger] mentions_mult_param(t@, x) <==> (exists|k: int|
                    0 <= k < type_arguments.len() && #[trigger] mentions_mult_param(
                        te_view(type_arguments@[k]),
                        x,
                    )) || exists|k: int|
                    0 <= k < multiplicity_arguments.len() && #[trigger] mults_view(
                        multiplicity_arguments@,
                    )[k] == MultView::Variable(x)
        },
{
    crate::types::lemma_te_view_parts(t);
    match t {
        TypeExpr::Named { type_arguments, multiplicity_arguments, .. } => {
            let tv = t@;
            assert forall|x: Seq<char>| #[trigger] mentions_type_param(tv, x) <==> exists|k: int|
                0 <= k < type_arguments.len() && #[trigger] mentions_type_param(te_view(type_arguments@[k]), x) by {
                if exists|k: int| 0 <= k < type_arguments.len() && #[trigger] mentions_type_param(te_view(type_arguments@[k]), x) {
                    let k = choose|k: int| 0 <= k < type_arguments.len() && #[trigger] mentions_type_param(te_view(type_arguments@[k]), x);
                    assert(tv->type_arguments[k] == te_view(type_arguments@[k]));
                }
                lemma_mentions_named(tv, x);
                if mentions_type_param(tv, x) {
                    let k = choose|k: int| 0 <= k < tv->type_arguments.len() && #[trigger] mentions_type_param(tv->type_arguments[k], x);
                    assert(tv->type_arguments[k] == te_view(type_arguments@[k]));
                }
            }
            assert forall|x: Seq<char>| #[trigger] mentions_mult_param(tv, x) <==> (exists|k: int|
                0 <= k < type_arguments.len() && #[trigger] mentions_mult_param(te_view(type_arguments@[k]), x)) || exists|k: int|
                0 <= k < multiplicity_arguments.len() && #[trigger] mults_view(multiplicity_arguments@)[k] == MultView::Variable(x) by {
                lemma_mentions_mult_named(tv, x);
                if exists|k: int| 0 <= k < type_arguments.len() && #[trigger] mentions_mult_param(te_view(type_arguments@[k]), x) {
                    let k = choose|k: int| 0 <= k < type_arguments.len() && #[trigger] mentions_mult_param(te_view(type_arguments@[k]), x);
                    assert(tv->type_arguments[k] == te_view(type_arguments@[k]));
                }
                if exists|k: int| 0 <= k < tv->type_arguments.len() && #[trigger] mentions_mult_param(tv->type_arguments[k], x) {
                    let k = choose|k: int| 0 <= k < tv->type_arguments.len() && #[trigger] mentions_mult_param(tv->type_arguments[k], x);
                    assert(tv->type_arguments[k] == te_view(type_arguments@[k]));
                }
                if exists|k: int| 0 <= k < multiplicity_arguments.len() && #[trigger] mults_view(multiplicity_arguments@)[k] == MultView::Variable(x) {
                    let k = choose|k: int| 0 <= k < multiplicity_arguments.len() && #[trigger] mults_view(multiplicity_arguments@)[k] == MultView::Variable(x);
                    assert(tv->multiplicity_arguments[k] == MultView::Variable(x));
                }
            }
        },
        _ => {},
    }
}

/// The parameters a relation type mentions are those of its columns.
proof fn lemma_relation_mentions(t: TypeExpr)
    ensures
        t matches TypeExpr::Relation(cols) ==> {
            &&& forall|x: Seq<char>|
                #[trigger] mentions_type_param(t@, x) <==> exists|k: int|
                    0 <= k < cols.len() && #[trigger] mentions_type_param(te_view(cols@[k].type_expr), x)
            &&& forall|x: Seq<char>|
                #[trigger] mentions_mult_param(t@, x) <==> exists|k: int|
                    0 <= k < cols.len() && (#[trigger] mentions_mult_param(te_view(cols@[k].type_expr), x)
                        || cols@[k].multiplicity@ == MultView::Variable(x))
        },
{
    crate::types::lemma_te_view_parts(t);
    match t {
        TypeExpr::Relation(cols) => {
            let tv = t@;
            assert forall|x: Seq<char>| #[trigger] mentions_type_param(tv, x) <==> exists|k: int|
                0 <= k < cols.len() && #[trigger] mentions_type_param(te_view(cols@[k].type_expr), x) by {
                if exists|k: int| 0 <= k < cols.len() && #[trigger] mentions_type_param(te_view(cols@[k].type_expr), x) {
                    let k = choose|k: int| 0 <= k < cols.len() && #[trigger] mentions_type_param(te_view(cols@[k].type_expr), x);
                    assert(tv->Relation_0[k] == (cols@[k].name@, te_view(cols@[k].type_expr), cols@[k].multiplicity@));
                }
                lemma_mentions_relation(tv, x);
                if mentions_type_param(tv, x) {
                    let k = choose|k: int| 0 <= k < tv->Relation_0.len() && #[trigger] mentions_type_param(tv->Relation_0[k].1, x);
                    assert(tv->Relation_0[k] == (cols@[k].name@, te_view(cols@[k].type_expr), cols@[k].multiplicity@));
                }
            }
            assert forall|x: Seq<char>| #[trigger] mentions_mult_param(tv, x) <==> exists|k: int|
                0 <= k < cols.len() && (#[trigger] mentions_mult_param(te_view(cols@[k].type_expr), x)
                    || cols@[k].multiplicity@ == MultView::Variable(x)) by {
                lemma_mentions_mult_relation(tv, x);
                assert forall|k: int| 0 <= k < cols.len() implies (#[trigger] tv->Relation_0[k]).1
                    == te_view(cols@[k].type_expr) && tv->Relation_0[k].2 == cols@[k].multiplicity@ by {
                    assert(tv->Relation_0[k] == (cols@[k].name@, te_view(cols@[k].type_expr), cols@[k].multiplicity@));
                }
                if exists|k: int| #![trigger tv->Relation_0[k]] 0 <= k < tv->Relation_0.len() && (mentions_mult_param(tv->Relation_0[k].1, x) || tv->Relation_0[k].2 == MultView::Variable(x)) {
                    let k = choose|k: int| #![trigger tv->Relation_0[k]] 0 <= k < tv->Relation_0.len() && (mentions_mult_param(tv->Relation_0[k].1, x) || tv->Relation_0[k].2 == MultView::Variable(x));
                    assert(tv->Relation_0[k].1 == te_view(cols@[k].type_expr));
                    assert(mentions_mult_param(te_view(cols@[k].type_expr), x) || cols@[k].multiplicity@ == MultView::Variable(x));
                }
                if exists|k: int| #![trigger cols@[k]] 0 <= k < cols.len() && (mentions_mult_param(te_view(cols@[k].type_expr), x) || cols@[k].multiplicity@ == MultView::Variable(x)) {
                    let k = choose|k: int| #![trigger cols@[k]] 0 <= k < cols.len() && (mentions_mult_param(te_view(cols@[k].type_expr), x) || cols@[k].multiplicity@ == MultView::Variable(x));
                    assert(tv->Relation_0[k].1 == te_view(cols@[k].type_expr));
                    assert(mentions_mult_param(tv->Relation_0[k].1, x) || tv->Relation_0[k].2 == MultView::Variable(x));
                }
            }
        },
        _ => {},
    }
}

/// Collects the type parameters and the multiplicity parameters that occur
/// in `te` into two lists of distinct names.
pub fn collect_generic_names_in_typeexpr(
    te: &TypeExpr,
    type_names: &mut Vec<String>,
    mult_names: &mut Vec<String>,
)
    requires
        names_distinct(old(type_names)@),
        names_distinct(old(mult_names)@),
    ensures
        names_distinct(final(type_names)@),
        names_distinct(final(mult_names)@),
        forall|x: Seq<char>|
            #[trigger] name_set(final(type_names)@).contains(x) <==> name_set(old(type_names)@).contains(x)
                || mentions_type_param(te@, x),
        forall|x: Seq<char>|
            #[trigger] name_set(final(mult_names)@).contains(x) <==> name_set(old(mult_names)@).contains(x)
                || mentions_mult_param(te@, x),
    decreases te,
{
    proof {
        crate::types::lemma_te_view_parts(*te);
    }
    let ghost t0 = name_set(type_names@);
    let ghost m0 = name_set(mult_names@);
    match te {
        TypeExpr::Generic(name) => {
            add_name(type_names, name);
            assert(te@ == TypeExprView::Generic(name@));
            assert forall|x: Seq<char>| #[trigger] name_set(mult_names@).contains(x) <==> m0.contains(x)
                || mentions_mult_param(te@, x) by {
                assert(!mentions_mult_param(te@, x));
            }
        },
        TypeExpr::Named { type_arguments, multiplicity_arguments, .. } => {
            collect_in_types(type_arguments, type_names, mult_names);
            collect_in_mults(multiplicity_arguments, mult_names);
            proof {
                lemma_named_mentions(*te);
            }
        },
        TypeExpr::FunctionType { parameters, return_type, return_multiplicity } => {
            collect_in_params(parameters, type_names, mult_names);
            collect_generic_names_in_typeexpr(&**return_type, type_names, mult_names);
            add_mult_name(mult_names, return_multiplicity);
            proof {
                lemma_fn_mentions(*te);
            }
        },
        TypeExpr::AlgebraUnion(a, b) => {
            collect_generic_names_in_typeexpr(&**a, type_names, mult_names);
            collect_generic_names_in_typeexpr(&**b, type_names, mult_names);
        },
        TypeExpr::Relation(cols) => {
            collect_in_columns(cols, type_names, mult_names);
            proof {
                lemma_relation_mentions(*te);
            }
        },
        _ => {},
    }
}


/// The decimal digit `d`.
pub open spec fn digit_char(d: nat) -> char {
    ((48 + d) as u32) as char
}

/// The decimal notation of `n`, most significant digit first.
pub open spec fn decimal(n: nat) -> Seq<char>
    decreases n,
{
    if n < 10 {
        seq![digit_char(n)]
    } else {
        decimal(n / 10).push(digit_char(n % 10))
    }
}

fn digit_str(d: u64) -> (r: &'static str)
    requires
        d < 10,
    ensures
        r@ == seq![digit_char(d as nat)],
{
    proof {
        reveal_strlit("0");
        reveal_strlit("1");
        reveal_strlit("2");
        reveal_strlit("3");
        reveal_strlit("4");
        reveal_strlit("5");
        reveal_strlit("6");
        reveal_strlit("7");
        reveal_strlit("8");
        reveal_strlit("9");
    }
    let r = if d == 0 {
        "0"
    } else if d == 1 {
        "1"
    } else if d == 2 {
        "2"
    } else if d == 3 {
        "3"
    } else if d == 4 {
        "4"
    } else if d == 5 {
        "5"
    } else if d == 6 {
        "6"
    } else if d == 7 {
        "7"
    } else if d == 8 {
        "8"
    } else {
        "9"
    };
    assert(r@ =~= seq![digit_char(d as nat)]);
    r
}

/// Appends the decimal notation of `n`.
fn append_decimal(s: &mut String, n: u64)
    ensures
        final(s)@ == old(s)@ + decimal(n as nat),
    decreases n,
{
    if n >= 10 {
        append_decimal(s, n / 10);
    }
    let d = digit_str(n % 10);
    let ghost before = s@;
    s.append(d);
    proof {
        if n >= 10 {
            assert(before + seq![digit_char((n % 10) as nat)] =~= (old(s)@ + decimal((n / 10) as nat))
                + seq![digit_char((n % 10) as nat)]);
            assert(decimal(n as nat) == decimal((n / 10) as nat).push(digit_char((n % 10) as nat)));
            assert(s@ =~= old(s)@ + decimal(n as nat));
        } else {
            assert(s@ =~= old(s)@ + decimal(n as nat));
        }
    }
}

/// The fresh name a callee parameter `n` takes at call site `callsite`.
pub open spec fn fresh_name(callsite: u64, n: Seq<char>) -> Seq<char> {
    "__cs"@ + decimal(callsite as nat) + "_"@ + n
}

fn fresh_param_name(callsite: u64, n: &String) -> (r: String)
    ensures
        r@ == fresh_name(callsite, n@),
{
    let mut r = "__cs".to_owned();
    append_decimal(&mut r, callsite);
    r.append("_");
    r.append(n.as_str());
    r
}

/// Every name of `names`, each mapped to its fresh name.
fn rename_map(names: &Vec<String>, callsite: u64) -> (r: Vec<(String, String)>)
    requires
        names_distinct(names@),
    ensures
        names_unique(r@),
        forall|x: Seq<char>| #[trigger] assoc_view(r@).contains_key(x) <==> name_set(names@).contains(x),
        forall|x: Seq<char>|
            #[trigger] assoc_view(r@).contains_key(x) ==> assoc_view(r@)[x] == fresh_name(callsite, x),
{
    let mut r: Vec<(String, String)> = Vec::new();
    let mut i: usize = 0;
    while i < names.len()
        invariant
            names_distinct(names@),
            i <= names.len(),
            r.len() == i,
            forall|j: int| 0 <= j < i ==> (#[trigger] r@[j]).0@ == names@[j]@ && r@[j].1@ == fresh_name(
                callsite,
                names@[j]@,
            ),
        decreases names.len() - i,
    {
        let f = fresh_param_name(callsite, &names[i]);
        r.push((names[i].clone(), f));
        i = i + 1;
    }
    proof {
        assert(names_unique(r@)) by {
            assert forall|a: int, b: int| 0 <= a < b < r@.len() implies r@[a].0@ != r@[b].0@ by {
                assert(r@[a].0@ == names@[a]@);
                assert(r@[b].0@ == names@[b]@);
            }
        }
        lemma_assoc_view(r@);
        assert forall|x: Seq<char>| #[trigger] assoc_view(r@).contains_key(x) <==> name_set(names@).contains(x) by {
            if assoc_view(r@).contains_key(x) {
                let j = choose|j: int| 0 <= j < r@.len() && r@[j].0@ == x;
                assert(names@[j]@ == x);
            }
            if name_set(names@).contains(x) {
                let j = choose|j: int| 0 <= j < names@.len() && names@[j]@ == x;
                assert(r@[j].0@ == x);
            }
        }
        assert forall|x: Seq<char>| #[trigger] assoc_view(r@).contains_key(x) implies assoc_view(r@)[x]
            == fresh_name(callsite, x) by {
            let j = choose|j: int| 0 <= j < r@.len() && r@[j].0@ == x;
            assert(r@[j].0@ == x);
        }
    }
    r
}

/// A callee parameter list mentions the type parameter `x`.
pub open spec fn params_mention_type(params: Seq<Parameter>, x: Seq<char>) -> bool {
    exists|i: int| 0 <= i < params.len() && #[trigger] mentions_type_param(params[i].type_expr@, x)
}

/// A callee parameter list mentions the multiplicity parameter `x`, in a
/// parameter's type or as a parameter's multiplicity.
pub open spec fn params_mention_mult(params: Seq<Parameter>, x: Seq<char>) -> bool {
    exists|i: int|
        0 <= i < params.len() && (#[trigger] mentions_mult_param(params[i].type_expr@, x)
            || params[i].multiplicity@ == MultView::Variable(x))
}

proof fn lemma_type_names_step(params: Seq<Parameter>, i: int, before: Set<Seq<char>>, after: Set<Seq<char>>)
    requires
        0 <= i < params.len(),
        forall|x: Seq<char>|
            #[trigger] before.contains(x) <==> exists|k: int|
                0 <= k < i && #[trigger] mentions_type_param(params[k].type_expr@, x),
        forall|x: Seq<char>|
            #[trigger] after.contains(x) <==> before.contains(x) || mentions_type_param(params[i].type_expr@, x),
    ensures
        forall|x: Seq<char>|
            #[trigger] after.contains(x) <==> exists|k: int|
                0 <= k < i + 1 && #[trigger] mentions_type_param(params[k].type_expr@, x),
{
    assert forall|x: Seq<char>| #[trigger] after.contains(x) <==> exists|k: int|
        0 <= k < i + 1 && #[trigger] mentions_type_param(params[k].type_expr@, x) by {
        if exists|k: int| 0 <= k < i + 1 && #[trigger] mentions_type_param(params[k].type_expr@, x) {
            let k = choose|k: int| 0 <= k < i + 1 && #[trigger] mentions_type_param(params[k].type_expr@, x);
            if k < i {
                assert(before.contains(x));
            }
        }
        if after.contains(x) && !before.contains(x) {
            assert(mentions_type_param(params[i].type_expr@, x));
        }
    }
}

proof fn lemma_mult_names_step(params: Seq<Parameter>, i: int, before: Set<Seq<char>>, after: Set<Seq<char>>)
    requires
        0 <= i < params.len(),
        forall|x: Seq<char>|
            #[trigger] before.contains(x) <==> exists|k: int|
                0 <= k < i && (#[trigger] mentions_mult_param(params[k].type_expr@, x)
                    || params[k].multiplicity@ == MultView::Variable(x)),
        forall|x: Seq<char>|
            #[trigger] after.contains(x) <==> before.contains(x) || mentions_mult_param(params[i].type_expr@, x)
                || params[i].multiplicity@ == MultView::Variable(x),
    ensures
        forall|x: Seq<char>|
            #[trigger] after.contains(x) <==> exists|k: int|
                0 <= k < i + 1 && (#[trigger] mentions_mult_param(params[k].type_expr@, x)
                    || params[k].multiplicity@ == MultView::Variable(x)),
{
    assert forall|x: Seq<char>| #[trigger] after.contains(x) <==> exists|k: int|
        0 <= k < i + 1 && (#[trigger] mentions_mult_param(params[k].type_expr@, x)
            || params[k].multiplicity@ == MultView::Variable(x)) by {
        if exists|k: int| #![trigger params[k]] 0 <= k < i + 1 && (mentions_mult_param(params[k].type_expr@, x)
            || params[k].multiplicity@ == MultView::Variable(x)) {
            let k = choose|k: int| #![trigger params[k]] 0 <= k < i + 1 && (mentions_mult_param(params[k].type_expr@, x)
                || params[k].multiplicity@ == MultView::Variable(x));
            if k < i {
                assert(mentions_mult_param(params[k].type_expr@, x)
                    || params[k].multiplicity@ == MultView::Variable(x));
                assert(exists|k2: int|
                    0 <= k2 < i && (#[trigger] mentions_mult_param(params[k2].type_expr@, x)
                        || params[k2].multiplicity@ == MultView::Variable(x)));
                assert(before.contains(x));
            }
        }
        if after.contains(x) && !before.contains(x) {
            assert(mentions_mult_param(params[i].type_expr@, x) || params[i].multiplicity@ == MultView::Variable(x));
        }
    }
}

/// The rename maps of a call site: every type parameter and every
/// multiplicity parameter the callee's parameters mention, each mapped to
/// its fresh name for `callsite` (the call site's number). A callee
/// without parameters of either kind gets two empty maps.
pub fn build_callee_rename(params: &Vec<Parameter>, callsite: u64) -> (r: (
    Vec<(String, String)>,
    Vec<(String, String)>,
))
    ensures
        names_unique(r.0@),
        names_unique(r.1@),
        forall|x: Seq<char>|
            #[trigger] assoc_view(r.0@).contains_key(x) <==> params_mention_type(params@, x),
        forall|x: Seq<char>|
            #[trigger] assoc_view(r.1@).contains_key(x) <==> params_mention_mult(params@, x),
        forall|x: Seq<char>|
            #[trigger] assoc_view(r.0@).contains_key(x) ==> assoc_view(r.0@)[x] == fresh_name(callsite, x),
        forall|x: Seq<char>|
            #[trigger] assoc_view(r.1@).contains_key(x) ==> assoc_view(r.1@)[x] == fresh_name(callsite, x),
{
    let mut type_names: Vec<String> = Vec::new();
    let mut mult_names: Vec<String> = Vec::new();
    let mut i: usize = 0;
    while i < params.len()
        invariant
            i <= params.len(),
            names_distinct(type_names@),
            names_distinct(mult_names@),
            forall|x: Seq<char>|
                #[trigger] name_set(type_names@).contains(x) <==> exists|k: int|
                    0 <= k < i && #[trigger] mentions_type_param(params@[k].type_expr@, x),
            forall|x: Seq<char>|
                #[trigger] name_set(mult_names@).contains(x) <==> exists|k: int|
                    0 <= k < i && (#[trigger] mentions_mult_param(params@[k].type_expr@, x)
                        || params@[k].multiplicity@ == MultView::Variable(x)),
        decreases params.len() - i,
    {
        let ghost tb = name_set(type_names@);
        let ghost mb = name_set(mult_names@);
        collect_generic_names_in_typeexpr(&params[i].type_expr, &mut type_names, &mut mult_names);
        add_mult_name(&mut mult_names, &params[i].multiplicity);
        proof {
            lemma_type_names_step(params@, i as int, tb, name_set(type_names@));
            lemma_mult_names_step(params@, i as int, mb, name_set(mult_names@));
        }
        i = i + 1;
    }
    let tr = rename_map(&type_names, callsite);
    let mr = rename_map(&mult_names, callsite);
    (tr, mr)
}


// ---------------------------------------------------------------------------
// Binding parameters against arguments
// ---------------------------------------------------------------------------

/// How a new binding meets an existing one.
#[derive(Clone, Copy, Debug, PartialEq, Eq, Structural)]
pub enum RegisterMode {
    /// Every argument converged: an existing binding is widened to the
    /// least upper bound with the new one.
    Constraint,
    /// Some argument did not converge: a concrete binding is kept (first
    /// wins); only a binding that is still a parameter is replaced.
    Authoritative,
}

/// `m` with every value equal to the parameter `from` replaced by `to`.
pub open spec fn replace_mult_values(m: Map<Seq<char>, MultView>, from: Seq<char>, to: MultView) -> Map<
    Seq<char>,
    MultView,
> {
    Map::new(
        |k: Seq<char>| m.contains_key(k),
        |k: Seq<char>|
            if m[k] == MultView::Variable(from) {
                to
            } else {
                m[k]
            },
    )
}

/// The multiplicity bindings after binding parameter `p` against `a`:
/// nothing happens unless `p` is a parameter; a first binding is
/// recorded; otherwise, in constraint mode the binding widens to the
/// least upper bound (and, when it was an alias of another parameter,
/// every binding aliased to that parameter takes the bound too), and in
/// authoritative mode only a binding that is still a parameter is
/// replaced.
pub open spec fn bind_mult_spec(
    p: MultView,
    a: MultView,
    mb: Map<Seq<char>, MultView>,
    mode: RegisterMode,
) -> Map<Seq<char>, MultView> {
    match p {
        MultView::Variable(name) => if !mb.contains_key(name) {
            mb.insert(name, a)
        } else {
            match mode {
                RegisterMode::Constraint => {
                    let prev = mb[name];
                    let l = crate::multiplicity::lub(prev, a);
                    match prev {
                        MultView::Variable(pn) => replace_mult_values(mb.insert(name, l), pn, l),
                        _ => mb.insert(name, l),
                    }
                },
                RegisterMode::Authoritative => if mb[name] is Variable {
                    mb.insert(name, a)
                } else {
                    mb
                },
            }
        },
        _ => mb,
    }
}

/// Replaces, in place, every binding equal to the parameter `from` by `to`.
fn replace_mult_bindings(mult_out: &mut Vec<(String, Multiplicity)>, from: &String, to: &Multiplicity)
    requires
        names_unique(old(mult_out)@),
    ensures
        names_unique(final(mult_out)@),
        assoc_view(final(mult_out)@) == replace_mult_values(assoc_view(old(mult_out)@), from@, to@),
{
    let ghost before = mult_out@;
    proof {
        lemma_assoc_view(before);
    }
    let mut i: usize = 0;
    while i < mult_out.len()
        invariant
            names_unique(before),
            mult_out.len() == before.len(),
            i <= mult_out.len(),
            forall|j: int| 0 <= j < mult_out.len() ==> (#[trigger] mult_out@[j]).0@ == before[j].0@,
            forall|j: int|
                0 <= j < i ==> (#[trigger] mult_out@[j]).1@ == if before[j].1@ == MultView::Variable(from@) {
                    to@
                } else {
                    before[j].1@
                },
            forall|j: int| i <= j < mult_out.len() ==> (#[trigger] mult_out@[j]).1@ == before[j].1@,
        decreases mult_out.len() - i,
    {
        let hit = match &mult_out[i].1 {
            Multiplicity::Variable(n) => str_eq(n.as_str(), from.as_str()),
            _ => false,
        };
        if hit {
            let key = mult_out[i].0.clone();
            mult_out.set(i, (key, to.duplicate()));
        }
        i = i + 1;
    }
    proof {
        assert(names_unique(mult_out@)) by {
            assert forall|a: int, b: int| 0 <= a < b < mult_out@.len() implies mult_out@[a].0@
                != mult_out@[b].0@ by {
                assert(mult_out@[a].0@ == before[a].0@);
                assert(mult_out@[b].0@ == before[b].0@);
            }
        }
        lemma_assoc_view(mult_out@);
        let want = replace_mult_values(assoc_view(before), from@, to@);
        assert forall|k: Seq<char>| #[trigger] assoc_view(mult_out@).contains_key(k) <==> want.contains_key(k) by {
            if assoc_view(mult_out@).contains_key(k) {
                let j = choose|j: int| 0 <= j < mult_out@.len() && mult_out@[j].0@ == k;
                assert(before[j].0@ == k);
            }
            if assoc_view(before).contains_key(k) {
                let j = choose|j: int| 0 <= j < before.len() && before[j].0@ == k;
                assert(mult_out@[j].0@ == k);
            }
        }
        assert forall|k: Seq<char>| #[trigger] assoc_view(mult_out@).contains_key(k) implies assoc_view(
            mult_out@,
        )[k] == want[k] by {
            let j = choose|j: int| 0 <= j < mult_out@.len() && mult_out@[j].0@ == k;
            assert(before[j].0@ == k);
        }
        assert(assoc_view(mult_out@) =~= want);
    }
}

/// Binds the multiplicity parameter `p` (if it is one) against `a`, as
/// `bind_mult_spec` describes.
pub fn bind_mult_with_mode(
    p: &Multiplicity,
    a: &Multiplicity,
    mult_out: &mut Vec<(String, Multiplicity)>,
    mode: RegisterMode,
)
    requires
        names_unique(old(mult_out)@),
    ensures
        names_unique(final(mult_out)@),
        assoc_view(final(mult_out)@) == bind_mult_spec(p@, a@, assoc_view(old(mult_out)@), mode),
{
    let name = match p {
        Multiplicity::Variable(name) => name,
        _ => {
            return;
        },
    };
    match lookup_binding(mult_out, name.as_str()) {
        None => {
            set_binding(mult_out, name.clone(), a.duplicate());
        },
        Some(existing) => match mode {
            RegisterMode::Constraint => {
                let prev = existing.duplicate();
                let l = crate::multiplicity::mult_lub(&prev, a);
                set_binding(mult_out, name.clone(), l.duplicate());
                match &prev {
                    Multiplicity::Variable(prev_name) => {
                        replace_mult_bindings(mult_out, prev_name, &l);
                    },
                    _ => {},
                }
            },
            RegisterMode::Authoritative => {
                if existing.is_variable() {
                    set_binding(mult_out, name.clone(), a.duplicate());
                }
            },
        },
    }
}


// ---------------------------------------------------------------------------
// Viewing a subtype as one of its ancestors
// ---------------------------------------------------------------------------

/// The variance declared for type parameter `i` of `c` (invariant where
/// none is recorded).
pub open spec fn variance_at(c: Class, i: int) -> Variance {
    if 0 <= i < c.type_parameter_variances.len() {
        c.type_parameter_variances@[i]
    } else {
        Variance::Invariant
    }
}

/// A use-site argument for a parameter of the given variance: `Nil` in a
/// contravariant slot stands for any owner and is lifted to `Any`.
pub open spec fn lift_for_variance(v: Variance, t: TypeExprView) -> TypeExprView {
    if v == Variance::Contravariant && t is Named && t->element == nil_id() {
        named_view(any_id())
    } else {
        t
    }
}

/// The map from `names[i]` to `values[i]` for the first `n` positions, a
/// later name overriding an earlier one.
pub open spec fn zip_mult_map(names: Seq<Seq<char>>, values: Seq<MultView>, n: int) -> Map<
    Seq<char>,
    MultView,
>
    decreases n,
{
    if n <= 0 {
        Map::empty()
    } else {
        zip_mult_map(names, values, n - 1).insert(names[n - 1], values[n - 1])
    }
}

/// Type-parameter bindings of class `c` at a use site with type arguments
/// `args`: parameter `i` bound to argument `i` (lifted for variance), or
/// nothing when the arities differ.
pub open spec fn class_type_subst(c: Class, args: Seq<TypeExprView>) -> Map<Seq<char>, TypeExprView> {
    if c.type_parameters.len() == args.len() {
        zip_map(
            strs_view(c.type_parameters@),
            Seq::new(args.len(), |i: int| lift_for_variance(variance_at(c, i), args[i])),
            args.len() as int,
        )
    } else {
        Map::empty()
    }
}

/// Multiplicity-parameter bindings of class `c` at a use site with
/// multiplicity arguments `margs`, or nothing when the arities differ.
pub open spec fn class_mult_subst(c: Class, margs: Seq<MultView>) -> Map<Seq<char>, MultView> {
    if c.multiplicity_parameters.len() == margs.len() {
        zip_mult_map(strs_view(c.multiplicity_parameters@), margs, margs.len() as int)
    } else {
        Map::empty()
    }
}

/// A bare reference to `e` with the given arguments.
pub open spec fn named_with(e: ElementId, args: Seq<TypeExprView>, margs: Seq<MultView>) -> TypeExprView {
    TypeExprView::Named {
        element: e,
        type_arguments: args,
        multiplicity_arguments: margs,
        value_arguments: Seq::empty(),
        source_info: None,
    }
}

/// Number of supertypes of `id` when it is a class of `m`.
pub open spec fn super_count(m: PureModel, id: ElementId) -> int {
    if m.valid_id(id) {
        match m.elem(id) {
            Element::Class(c) => c.super_types.len() as int,
            _ => 0,
        }
    } else {
        0
    }
}

/// A `Named` entry of a list is among the list's named ids.
pub proof fn lemma_named_ids_member(s: Seq<TypeExpr>, k: int)
    requires
        0 <= k < s.len(),
        s[k] is Named,
    ensures
        exists|j: int|
            0 <= j < named_ids(s).len() && #[trigger] named_ids(s)[j] == s[k]->Named_element,
{
    crate::resolve::lemma_named_ids_step(s, k);
    crate::resolve::lemma_named_ids_take(s, k + 1);
    let j = named_ids(s.take(k)).len() as int;
    assert(named_ids(s.take(k + 1))[j] == s[k]->Named_element);
    assert(named_ids(s)[j] == named_ids(s.take(k + 1))[j]);
}

/// The use-site view of class `ae` (with arguments `args`, `margs`) as its
/// ancestor `target`: `ae` itself when it is the target; otherwise the
/// supertypes of `ae` from position `k` on, in order, each with the
/// class's parameters substituted by the use-site arguments, the first
/// that is the target or has the target among its ancestors (depth
/// first) deciding; `None` when none has.
pub open spec fn view_as_ancestor(
    m: PureModel,
    rank: spec_fn(ElementId) -> nat,
    ae: ElementId,
    args: Seq<TypeExprView>,
    margs: Seq<MultView>,
    target: ElementId,
    k: int,
) -> Option<TypeExprView>
    decreases rank(ae), super_count(m, ae) - k,
    when m.ranked(rank) && 0 <= k
{
    if ae == target {
        Some(named_with(ae, args, margs))
    } else if !m.valid_id(ae) {
        None
    } else {
        match m.elem(ae) {
            Element::Class(c) => if k >= c.super_types.len() {
                None
            } else {
                match c.super_types@[k] {
                    TypeExpr::Named { element: st, type_arguments: sta, multiplicity_arguments: stm, .. } => {
                        let tsub = class_type_subst(c, args);
                        let msub = class_mult_subst(c, margs);
                        let sargs = Seq::new(
                            sta.len() as nat,
                            |j: int| subst_type(tsub, msub, te_view(sta@[j])),
                        );
                        let smargs = mults_view(stm@).map_values(|x: MultView| subst_mult(msub, x));
                        if st == target {
                            Some(named_with(target, sargs, smargs))
                        } else {
                            proof {
                                lemma_named_ids_member(c.super_types@, k);
                                let j = choose|j: int|
                                    0 <= j < named_ids(c.super_types@).len() && #[trigger] named_ids(
                                        c.super_types@,
                                    )[j] == st;
                                assert(m.direct_supers(ae)[j] == st);
                            }
                            match view_as_ancestor(m, rank, st, sargs, smargs, target, 0) {
                                Some(v) => Some(v),
                                None => view_as_ancestor(m, rank, ae, args, margs, target, k + 1),
                            }
                        }
                    },
                    _ => view_as_ancestor(m, rank, ae, args, margs, target, k + 1),
                }
            },
            _ => None,
        }
    }
}

/// Views of an optional type expression.
pub open spec fn opt_te_view(t: Option<TypeExpr>) -> Option<TypeExprView> {
    match t {
        Some(x) => Some(x@),
        None => None,
    }
}

fn named_with_args(e: ElementId, args: Vec<TypeExpr>, margs: Vec<Multiplicity>) -> (r: TypeExpr)
    ensures
        r@ == named_with(e, types_view(args@), mults_view(margs@)),
{
    let r = TypeExpr::Named {
        element: e,
        type_arguments: args,
        multiplicity_arguments: margs,
        value_arguments: Vec::new(),
        source_info: None,
    };
    proof {
        crate::types::lemma_te_view_parts(r);
        assert(r@->type_arguments =~= types_view(args@));
        assert(r@->value_arguments =~= Seq::<ConstValueView>::empty());
    }
    r
}

fn lifted_arg(v: Variance, t: &TypeExpr) -> (r: TypeExpr)
    ensures
        r@ == lift_for_variance(v, t@),
{
    proof {
        crate::types::lemma_te_view_parts(*t);
    }
    match t {
        TypeExpr::Named { element, .. } => {
            if v == Variance::Contravariant && *element == nil_id() {
                let r = named_with_args(any_id(), Vec::new(), Vec::new());
                assert(types_view(Seq::<TypeExpr>::empty()) =~= Seq::<TypeExprView>::empty());
                assert(mults_view(Seq::<Multiplicity>::empty()) =~= Seq::<MultView>::empty());
                return r;
            }
            t.duplicate()
        },
        _ => t.duplicate(),
    }
}

fn view_as_ancestor_rec(
    arg_eid: ElementId,
    arg_type_args: &Vec<TypeExpr>,
    arg_mult_args: &Vec<Multiplicity>,
    target_eid: ElementId,
    model: &PureModel,
    Ghost(rank): Ghost<spec_fn(ElementId) -> nat>,
) -> (r: Option<TypeExpr>)
    requires
        model.ranked(rank),
        arg_eid == target_eid || model.valid_id(arg_eid),
    ensures
        opt_te_view(r) == view_as_ancestor(
            *model,
            rank,
            arg_eid,
            types_view(arg_type_args@),
            mults_view(arg_mult_args@),
            target_eid,
            0,
        ),
    decreases rank(arg_eid),
{
    let ghost args = types_view(arg_type_args@);
    let ghost margs = mults_view(arg_mult_args@);
    if arg_eid == target_eid {
        let a = crate::types::dup_types(arg_type_args);
        let ma = crate::types::dup_mults(arg_mult_args);
        assert(types_view(a@) =~= args);
        return Some(named_with_args(arg_eid, a, ma));
    }
    let c = match model.get_element(arg_eid) {
        Element::Class(c) => c,
        _ => {
            return None;
        },
    };
    let mut ty_subst: Vec<(String, TypeExpr)> = Vec::new();
    if c.type_parameters.len() == arg_type_args.len() {
        let mut i: usize = 0;
        assert(assoc_view(ty_subst@) =~= zip_map(
            strs_view(c.type_parameters@),
            Seq::new(args.len(), |i: int| lift_for_variance(variance_at(*c, i), args[i])),
            0,
        ));
        while i < arg_type_args.len()
            invariant
                c.type_parameters.len() == arg_type_args.len(),
                args == types_view(arg_type_args@),
                i <= arg_type_args.len(),
                names_unique(ty_subst@),
                assoc_view(ty_subst@) == zip_map(
                    strs_view(c.type_parameters@),
                    Seq::new(args.len(), |i: int| lift_for_variance(variance_at(*c, i), args[i])),
                    i as int,
                ),
            decreases arg_type_args.len() - i,
        {
            let v = if i < c.type_parameter_variances.len() {
                c.type_parameter_variances[i]
            } else {
                Variance::Invariant
            };
            let t = lifted_arg(v, &arg_type_args[i]);
            set_binding(&mut ty_subst, c.type_parameters[i].clone(), t);
            i = i + 1;
        }
    } else {
        assert(assoc_view(ty_subst@) =~= Map::<Seq<char>, TypeExprView>::empty());
    }
    let mut mult_subst: Vec<(String, Multiplicity)> = Vec::new();
    if c.multiplicity_parameters.len() == arg_mult_args.len() {
        let mut i: usize = 0;
        assert(assoc_view(mult_subst@) =~= zip_mult_map(strs_view(c.multiplicity_parameters@), margs, 0));
        while i < arg_mult_args.len()
            invariant
                c.multiplicity_parameters.len() == arg_mult_args.len(),
                margs == mults_view(arg_mult_args@),
                i <= arg_mult_args.len(),
                names_unique(mult_subst@),
                assoc_view(mult_subst@) == zip_mult_map(
                    strs_view(c.multiplicity_parameters@),
                    margs,
                    i as int,
                ),
            decreases arg_mult_args.len() - i,
        {
            set_binding(&mut mult_subst, c.multiplicity_parameters[i].clone(), arg_mult_args[i].duplicate());
            i = i + 1;
        }
    } else {
        assert(assoc_view(mult_subst@) =~= Map::<Seq<char>, MultView>::empty());
    }
    let ghost tsub = class_type_subst(*c, args);
    let ghost msub = class_mult_subst(*c, margs);
    assert(assoc_view(ty_subst@) == tsub);
    assert(assoc_view(mult_subst@) == msub);
    let sts = &c.super_types;
    let mut k: usize = 0;
    while k < sts.len()
        invariant
            model.ranked(rank),
            model.valid_id(arg_eid),
            arg_eid != target_eid,
            model.elem(arg_eid) == Element::Class(*c),
            sts == &c.super_types,
            args == types_view(arg_type_args@),
            margs == mults_view(arg_mult_args@),
            names_unique(ty_subst@),
            names_unique(mult_subst@),
            assoc_view(ty_subst@) == tsub,
            assoc_view(mult_subst@) == msub,
            tsub == class_type_subst(*c, args),
            msub == class_mult_subst(*c, margs),
            k <= sts.len(),
            view_as_ancestor(*model, rank, arg_eid, args, margs, target_eid, 0) == view_as_ancestor(
                *model,
                rank,
                arg_eid,
                args,
                margs,
                target_eid,
                k as int,
            ),
        decreases sts.len() - k,
    {
        match &sts[k] {
            TypeExpr::Named { element: st, type_arguments: sta, multiplicity_arguments: stm, .. } => {
                let sargs = subst_types(sta, &ty_subst, &mult_subst);
                let smargs = subst_mults(stm, &mult_subst);
                let ghost sa = Seq::new(sta@.len() as nat, |j: int| subst_type(tsub, msub, te_view(sta@[j])));
                assert(types_view(sargs@) =~= sa);
                proof {
                    assert(c.super_types@[k as int] == sts@[k as int]);
                    assert(arg_eid != target_eid);
                    assert(mults_view(smargs@) == mults_view(stm@).map_values(
                        |x: MultView| subst_mult(msub, x),
                    ));
                }
                if *st == target_eid {
                    let r = named_with_args(target_eid, sargs, smargs);
                    assert(view_as_ancestor(*model, rank, arg_eid, args, margs, target_eid, k as int)
                        == Some(named_with(target_eid, sa, mults_view(smargs@))));
                    return Some(r);
                }
                proof {
                    lemma_named_ids_member(c.super_types@, k as int);
                    let j = choose|j: int|
                        0 <= j < named_ids(c.super_types@).len() && #[trigger] named_ids(c.super_types@)[j]
                            == *st;
                    assert(model.direct_supers(arg_eid)[j] == *st);
                }
                match view_as_ancestor_rec(*st, &sargs, &smargs, target_eid, model, Ghost(rank)) {
                    Some(v) => {
                        return Some(v);
                    },
                    None => {},
                }
            },
            _ => {},
        }
        k = k + 1;
    }
    None
}

/// The use-site type of class `arg_eid` (type arguments `arg_type_args`,
/// multiplicity arguments `arg_mult_args`) viewed as its ancestor
/// `target_eid`, with the class parameters substituted at every step of
/// the supertype walk; `None` when `target_eid` is not reached.
pub fn subtype_view(
    arg_eid: ElementId,
    arg_type_args: &Vec<TypeExpr>,
    arg_mult_args: &Vec<Multiplicity>,
    target_eid: ElementId,
    model: &PureModel,
) -> (r: Option<TypeExpr>)
    requires
        model.hierarchy_wf(),
        arg_eid == target_eid || model.valid_id(arg_eid),
    ensures
        opt_te_view(r) == view_as_ancestor(
            *model,
            model.the_rank(),
            arg_eid,
            types_view(arg_type_args@),
            mults_view(arg_mult_args@),
            target_eid,
            0,
        ),
{
    view_as_ancestor_rec(arg_eid, arg_type_args, arg_mult_args, target_eid, model, Ghost(model.the_rank()))
}


// ---------------------------------------------------------------------------
// Binding type parameters
// ---------------------------------------------------------------------------

/// The three tables of one binding pass, as maps: type bindings (merged
/// across arguments), the type bindings recorded inside a structural
/// function-type slot, and multiplicity bindings.
pub type BindMaps = (Map<Seq<char>, TypeExprView>, Map<Seq<char>, TypeExprView>, Map<Seq<char>, MultView>);

/// The tables after binding type parameter `name` to `arg`: a first
/// binding is recorded; an existing one widens to the least upper bound
/// (constraint mode) or is replaced only while it is still a parameter
/// (authoritative mode). Inside a structural slot the binding is also
/// recorded, always widening, in the structural table.
pub open spec fn bind_generic_spec(
    m: PureModel,
    name: Seq<char>,
    arg: TypeExprView,
    st: BindMaps,
    mode: RegisterMode,
    inside: bool,
) -> BindMaps {
    let types = st.0;
    let auth = st.1;
    let types2 = if !types.contains_key(name) {
        types.insert(name, arg)
    } else {
        match mode {
            RegisterMode::Constraint => types.insert(name, crate::resolve::type_lub_spec(m, types[name], arg)),
            RegisterMode::Authoritative => if types[name] is Generic {
                types.insert(name, arg)
            } else {
                types
            },
        }
    };
    let auth2 = if !inside {
        auth
    } else if !auth.contains_key(name) {
        auth.insert(name, arg)
    } else {
        auth.insert(name, crate::resolve::type_lub_spec(m, auth[name], arg))
    };
    (types2, auth2, st.2)
}

/// Multiplicity bindings after binding `ps[i]` against `as_[i]` for the
/// first `n` positions, in order.
pub open spec fn bind_mults_fold(
    ps: Seq<MultView>,
    as_: Seq<MultView>,
    n: int,
    mb: Map<Seq<char>, MultView>,
    mode: RegisterMode,
) -> Map<Seq<char>, MultView>
    decreases n,
{
    if n <= 0 {
        mb
    } else {
        bind_mult_spec(ps[n - 1], as_[n - 1], bind_mults_fold(ps, as_, n - 1, mb, mode), mode)
    }
}

/// Position of the first function type in `s` at or after `k`.
pub open spec fn first_fn_index(s: Seq<TypeExprView>, k: int) -> Option<int>
    decreases s.len() - k,
{
    if k < 0 || k >= s.len() {
        None
    } else if s[k] is FunctionType {
        Some(k)
    } else {
        first_fn_index(s, k + 1)
    }
}

/// 1 while a reference parameter meets a reference argument to another
/// element (the argument is then viewed as the parameter's element), else
/// 0.
pub open spec fn bind_flag(p: TypeExprView, a: TypeExprView) -> int {
    if p is Named && a is Named && p->Named_element != a->Named_element {
        1
    } else {
        0
    }
}

/// The smaller of two lengths.
pub open spec fn min_len(a: nat, b: nat) -> int {
    if a <= b {
        a as int
    } else {
        b as int
    }
}

/// A successful view is a reference to the target.
pub proof fn lemma_view_is_target(
    m: PureModel,
    rank: spec_fn(ElementId) -> nat,
    ae: ElementId,
    args: Seq<TypeExprView>,
    margs: Seq<MultView>,
    target: ElementId,
    k: int,
)
    requires
        m.ranked(rank),
        0 <= k,
    ensures
        view_as_ancestor(m, rank, ae, args, margs, target, k) matches Some(v) ==> v is Named
            && v->Named_element == target,
    decreases rank(ae), super_count(m, ae) - k,
{
    if ae != target && m.valid_id(ae) {
        match m.elem(ae) {
            Element::Class(c) => if k < c.super_types.len() {
                match c.super_types@[k] {
                    TypeExpr::Named { element: st, type_arguments: sta, multiplicity_arguments: stm, .. } => {
                        if st != target {
                            lemma_named_ids_member(c.super_types@, k);
                            let j = choose|j: int|
                                0 <= j < named_ids(c.super_types@).len() && #[trigger] named_ids(
                                    c.super_types@,
                                )[j] == st;
                            assert(m.direct_supers(ae)[j] == st);
                            let tsub = class_type_subst(c, args);
                            let msub = class_mult_subst(c, margs);
                            let sargs = Seq::new(
                                sta.len() as nat,
                                |j: int| subst_type(tsub, msub, te_view(sta@[j])),
                            );
                            let smargs = mults_view(stm@).map_values(|x: MultView| subst_mult(msub, x));
                            lemma_view_is_target(m, rank, st, sargs, smargs, target, 0);
                            lemma_view_is_target(m, rank, ae, args, margs, target, k + 1);
                        }
                    },
                    _ => {
                        lemma_view_is_target(m, rank, ae, args, margs, target, k + 1);
                    },
                }
            },
            _ => {},
        }
    }
}

/// The tables after binding parameter type `p` against argument type `a`:
/// an unresolved argument binds nothing; a type parameter is bound
/// (`bind_generic_spec`); a reference to the same element binds type
/// arguments, then multiplicity arguments, pairwise; a reference to a
/// subtype is first viewed as the parameter's element; a lambda
/// (function-type argument) against a reference binds the first
/// function-type argument of the reference, outside the structural table
/// and without its return multiplicity; a function type binds parameter
/// types and multiplicities pairwise, then the return, inside the
/// structural table; a relation binds its columns pairwise. Pairs stop at
/// the shorter side.
pub open spec fn bind_spec(
    m: PureModel,
    p: TypeExprView,
    a: TypeExprView,
    st: BindMaps,
    mode: RegisterMode,
    inside: bool,
) -> BindMaps
    decreases p, bind_flag(p, a),
{
    if a is Unresolved {
        st
    } else {
        match p {
            TypeExprView::Generic(name) => bind_generic_spec(m, name, a, st, mode, inside),
            TypeExprView::Named { element: pe, type_arguments: pa, multiplicity_arguments: pm, .. } => {
                match a {
                    TypeExprView::Named {
                        element: ae,
                        type_arguments: aa,
                        multiplicity_arguments: am,
                        ..
                    } => {
                        if pe == ae {
                            let st1 = bind_seq(m, pa, aa, min_len(pa.len(), aa.len()), st, mode, inside);
                            (st1.0, st1.1, bind_mults_fold(pm, am, min_len(pm.len(), am.len()), st1.2, mode))
                        } else if m.hierarchy_wf() && m.subtype(ae, pe) {
                            match view_as_ancestor(m, m.the_rank(), ae, aa, am, pe, 0) {
                                Some(v) => {
                                    proof {
                                        lemma_view_is_target(m, m.the_rank(), ae, aa, am, pe, 0);
                                    }
                                    bind_spec(m, p, v, st, mode, inside)
                                },
                                None => st,
                            }
                        } else {
                            st
                        }
                    },
                    TypeExprView::FunctionType { parameters: ap, return_type: ar, .. } => {
                        match first_fn_index(pa, 0) {
                            Some(i) => {
                                proof {
                                    lemma_first_fn_index(pa, 0);
                                }
                                match pa[i] {
                                    TypeExprView::FunctionType { parameters: pp, return_type: pr, .. } => {
                                        let st1 = bind_params(
                                            m,
                                            pp,
                                            ap,
                                            min_len(pp.len(), ap.len()),
                                            st,
                                            mode,
                                            false,
                                        );
                                        bind_spec(m, *pr, *ar, st1, mode, false)
                                    },
                                    _ => st,
                                }
                            },
                            None => st,
                        }
                    },
                    _ => st,
                }
            },
            TypeExprView::FunctionType { parameters: pp, return_type: pr, return_multiplicity: prm } => {
                match a {
                    TypeExprView::FunctionType {
                        parameters: ap,
                        return_type: ar,
                        return_multiplicity: arm,
                    } => {
                        let st1 = bind_params(m, pp, ap, min_len(pp.len(), ap.len()), st, mode, true);
                        let st2 = bind_spec(m, *pr, *ar, st1, mode, true);
                        (st2.0, st2.1, bind_mult_spec(prm, arm, st2.2, mode))
                    },
                    _ => st,
                }
            },
            TypeExprView::Relation(pc) => match a {
                TypeExprView::Relation(ac) => bind_cols(m, pc, ac, min_len(pc.len(), ac.len()), st, mode, inside),
                _ => st,
            },
            _ => st,
        }
    }
}

/// Binding `ps[i]` against `as_[i]` for the first `n` positions, in order.
pub open spec fn bind_seq(
    m: PureModel,
    ps: Seq<TypeExprView>,
    as_: Seq<TypeExprView>,
    n: int,
    st: BindMaps,
    mode: RegisterMode,
    inside: bool,
) -> BindMaps
    decreases ps, n,
{
    if n <= 0 || n > ps.len() || n > as_.len() {
        st
    } else {
        bind_spec(m, ps[n - 1], as_[n - 1], bind_seq(m, ps, as_, n - 1, st, mode, inside), mode, inside)
    }
}

/// Binding function-type parameters pairwise for the first `n` positions:
/// the type, then the multiplicity, of each.
pub open spec fn bind_params(
    m: PureModel,
    ps: Seq<(TypeExprView, MultView)>,
    as_: Seq<(TypeExprView, MultView)>,
    n: int,
    st: BindMaps,
    mode: RegisterMode,
    inside: bool,
) -> BindMaps
    decreases ps, n,
{
    if n <= 0 || n > ps.len() || n > as_.len() {
        st
    } else {
        let prev = bind_params(m, ps, as_, n - 1, st, mode, inside);
        let st1 = bind_spec(m, ps[n - 1].0, as_[n - 1].0, prev, mode, inside);
        (st1.0, st1.1, bind_mult_spec(ps[n - 1].1, as_[n - 1].1, st1.2, mode))
    }
}

/// Binding relation columns pairwise, by position, for the first `n`
/// columns: the type, then the multiplicity, of each.
pub open spec fn bind_cols(
    m: PureModel,
    ps: Seq<(Seq<char>, TypeExprView, MultView)>,
    as_: Seq<(Seq<char>, TypeExprView, MultView)>,
    n: int,
    st: BindMaps,
    mode: RegisterMode,
    inside: bool,
) -> BindMaps
    decreases ps, n,
{
    if n <= 0 || n > ps.len() || n > as_.len() {
        st
    } else {
        let prev = bind_cols(m, ps, as_, n - 1, st, mode, inside);
        let st1 = bind_spec(m, ps[n - 1].1, as_[n - 1].1, prev, mode, inside);
        (st1.0, st1.1, bind_mult_spec(ps[n - 1].2, as_[n - 1].2, st1.2, mode))
    }
}

/// The first function type found is one, at a valid position.
pub proof fn lemma_first_fn_index(s: Seq<TypeExprView>, k: int)
    ensures
        first_fn_index(s, k) matches Some(i) ==> 0 <= i < s.len() && s[i] is FunctionType,
    decreases s.len() - k,
{
    if 0 <= k < s.len() && !(s[k] is FunctionType) {
        lemma_first_fn_index(s, k + 1);
    }
}


// ---------------------------------------------------------------------------
// Resolvable references stay resolvable
// ---------------------------------------------------------------------------

/// Every element `t` names, at any depth (type arguments, function-type
/// parameters and returns, relation columns, union sides), is allocated
/// in `m`.
pub open spec fn refs_valid(m: PureModel, t: TypeExprView) -> bool
    decreases t,
{
    match t {
        TypeExprView::Named { element, type_arguments, .. } => m.valid_id(element) && forall|i: int|
            0 <= i < type_arguments.len() ==> refs_valid(m, #[trigger] type_arguments[i]),
        TypeExprView::FunctionType { parameters, return_type, .. } => (forall|i: int|
            0 <= i < parameters.len() ==> refs_valid(m, #[trigger] parameters[i].0)) && refs_valid(
            m,
            *return_type,
        ),
        TypeExprView::Relation(cols) => forall|i: int|
            0 <= i < cols.len() ==> refs_valid(m, #[trigger] cols[i].1),
        TypeExprView::AlgebraUnion(a, b) => refs_valid(m, *a) && refs_valid(m, *b),
        _ => true,
    }
}

/// Every value of a type-binding table is resolvable.
pub open spec fn values_valid(m: PureModel, b: Map<Seq<char>, TypeExprView>) -> bool {
    forall|k: Seq<char>| #[trigger] b.contains_key(k) ==> refs_valid(m, b[k])
}

/// Deep resolvability implies what the least-upper-bound computation
/// needs.
pub proof fn lemma_refs_valid_ids_valid(m: PureModel, t: TypeExprView)
    requires
        refs_valid(m, t),
    ensures
        m.ids_valid(t),
    decreases t,
{
    match t {
        TypeExprView::Named { type_arguments, .. } => {
            assert forall|i: int| 0 <= i < type_arguments.len() implies m.ids_valid(
                #[trigger] type_arguments[i],
            ) by {
                lemma_refs_valid_ids_valid(m, type_arguments[i]);
            }
        },
        TypeExprView::FunctionType { parameters, return_type, .. } => {
            assert forall|i: int| 0 <= i < parameters.len() implies m.ids_valid(
                (#[trigger] parameters[i]).0,
            ) by {
                lemma_refs_valid_ids_valid(m, parameters[i].0);
            }
            lemma_refs_valid_ids_valid(m, *return_type);
        },
        _ => {},
    }
}

impl PureModel {
    /// The `any` and `nil` elements are allocated.
    pub open spec fn bounds_allocated(&self) -> bool {
        self.valid_id(any_id()) && self.valid_id(nil_id())
    }

    /// Every supertype expression of every class names only allocated
    /// elements.
    pub open spec fn supertypes_resolvable(&self) -> bool {
        forall|id: ElementId, k: int|
            self.valid_id(id) && self.elem(id) is Class && 0 <= k < self.elem(id)->Class_0.super_types.len()
                ==> refs_valid(*self, #[trigger] te_view(self.elem(id)->Class_0.super_types@[k]))
    }
}

/// Following aliases ends on a parameter or on one of the bound values.
pub proof fn lemma_chase_type_value(b: Map<Seq<char>, TypeExprView>, cur: Seq<char>, seen: Set<Seq<char>>)
    requires
        b.dom().finite(),
        seen.subset_of(b.dom()),
    ensures
        chase_type(b, cur, seen) is Generic || exists|k: Seq<char>|
            b.contains_key(k) && b[k] == chase_type(b, cur, seen),
    decreases b.dom().len() - seen.len(),
{
    if !seen.contains(cur) && b.contains_key(cur) {
        match b[cur] {
            TypeExprView::Generic(next) => if next != cur {
                vstd::set_lib::lemma_len_subset(seen.insert(cur), b.dom());
                lemma_chase_type_value(b, next, seen.insert(cur));
            },
            _ => {},
        }
    }
}

/// The map of a list of pairs is finite and holds only the listed values.
pub proof fn lemma_zip_map_values(names: Seq<Seq<char>>, values: Seq<TypeExprView>, n: int)
    ensures
        zip_map(names, values, n).dom().finite(),
        forall|k: Seq<char>|
            #[trigger] zip_map(names, values, n).contains_key(k) ==> exists|i: int|
                0 <= i < n && zip_map(names, values, n)[k] == values[i],
    decreases n,
{
    if n > 0 {
        lemma_zip_map_values(names, values, n - 1);
        assert forall|k: Seq<char>| #[trigger] zip_map(names, values, n).contains_key(k) implies exists|i: int|
            0 <= i < n && zip_map(names, values, n)[k] == values[i] by {
            if k == names[n - 1] {
                assert(zip_map(names, values, n)[k] == values[n - 1]);
            } else {
                assert(zip_map(names, values, n - 1).contains_key(k));
                let i = choose|i: int| 0 <= i < n - 1 && zip_map(names, values, n - 1)[k] == values[i];
                assert(zip_map(names, values, n)[k] == values[i]);
            }
        }
    }
}

/// Substituting resolvable bindings into a resolvable type keeps it
/// resolvable.
pub proof fn lemma_subst_refs_valid(
    m: PureModel,
    tb: Map<Seq<char>, TypeExprView>,
    mb: Map<Seq<char>, MultView>,
    t: TypeExprView,
)
    requires
        refs_valid(m, t),
        tb.dom().finite(),
        values_valid(m, tb),
    ensures
        refs_valid(m, subst_type(tb, mb, t)),
    decreases t,
{
    let r = subst_type(tb, mb, t);
    match t {
        TypeExprView::Generic(name) => {
            lemma_chase_type_value(tb, name, Set::empty());
        },
        TypeExprView::Named { type_arguments, .. } => {
            assert forall|i: int| 0 <= i < r->type_arguments.len() implies refs_valid(
                m,
                #[trigger] r->type_arguments[i],
            ) by {
                lemma_subst_refs_valid(m, tb, mb, type_arguments[i]);
            }
        },
        TypeExprView::FunctionType { parameters, return_type, .. } => {
            assert forall|i: int| 0 <= i < r->parameters.len() implies refs_valid(
                m,
                (#[trigger] r->parameters[i]).0,
            ) by {
                lemma_subst_refs_valid(m, tb, mb, parameters[i].0);
            }
            lemma_subst_refs_valid(m, tb, mb, *return_type);
        },
        TypeExprView::Relation(cols) => {
            assert forall|i: int| 0 <= i < r->Relation_0.len() implies refs_valid(
                m,
                (#[trigger] r->Relation_0[i]).1,
            ) by {
                lemma_subst_refs_valid(m, tb, mb, cols[i].1);
            }
        },
        TypeExprView::AlgebraUnion(a, b) => {
            lemma_subst_refs_valid(m, tb, mb, *a);
            lemma_subst_refs_valid(m, tb, mb, *b);
        },
        _ => {},
    }
}

/// The first common element found along a primary chain is allocated.
pub proof fn lemma_first_common_valid(
    m: PureModel,
    rank: spec_fn(ElementId) -> nat,
    cur: ElementId,
    anc: Seq<ElementId>,
)
    requires
        m.ranked(rank),
        m.valid_id(cur),
    ensures
        crate::resolve::first_common(m, rank, cur, anc) matches Some(c) ==> m.valid_id(c),
    decreases rank(cur),
{
    if !anc.contains(cur) {
        crate::resolve::lemma_first_super_is_direct(m, cur);
        match m.first_super(cur) {
            Some(s) => {
                if m.direct_supers(cur).len() > 0 && m.direct_supers(cur)[0] == s {
                    assert(m.valid_id(m.direct_supers(cur)[0]));
                    lemma_first_common_valid(m, rank, s, anc);
                }
            },
            None => {},
        }
    }
}

/// The least upper bound of two resolvable types is resolvable.
pub proof fn lemma_type_lub_refs_valid(m: PureModel, a: TypeExprView, b: TypeExprView)
    requires
        m.hierarchy_wf(),
        m.bounds_allocated(),
        refs_valid(m, a),
        refs_valid(m, b),
    ensures
        refs_valid(m, crate::resolve::type_lub_spec(m, a, b)),
    decreases a,
{
    let r = crate::resolve::type_lub_spec(m, a, b);
    if a != b && !(a is Generic) && !(b is Generic) {
        match (a, b) {
            (
                TypeExprView::Named { element: ea, type_arguments: aa, .. },
                TypeExprView::Named { element: eb, type_arguments: ba, .. },
            ) => {
                if ea == eb {
                    if aa.len() > 0 && ba.len() > 0 && aa.len() == ba.len() {
                        assert forall|i: int| 0 <= i < r->type_arguments.len() implies refs_valid(
                            m,
                            #[trigger] r->type_arguments[i],
                        ) by {
                            lemma_type_lub_refs_valid(m, aa[i], ba[i]);
                        }
                    }
                } else {
                    let rank = m.the_rank();
                    crate::resolve::lemma_lub_from_global(m, ea, eb);
                    if !(m.subtype(ea, eb) || m.subtype(eb, ea)) {
                        lemma_first_common_valid(m, rank, eb, m.ancestors(ea));
                    }
                }
            },
            (
                TypeExprView::FunctionType { parameters: ap, return_type: ar, .. },
                TypeExprView::FunctionType { parameters: bp, return_type: br, .. },
            ) => {
                assert forall|i: int| 0 <= i < r->parameters.len() implies refs_valid(
                    m,
                    (#[trigger] r->parameters[i]).0,
                ) by {
                    if i < ap.len() && i < bp.len() {
                        lemma_type_lub_refs_valid(m, ap[i].0, bp[i].0);
                    }
                }
                lemma_type_lub_refs_valid(m, *ar, *br);
            },
            _ => {},
        }
    }
}

/// A successful ancestor view of a resolvable use site is resolvable.
pub proof fn lemma_view_refs_valid(
    m: PureModel,
    rank: spec_fn(ElementId) -> nat,
    ae: ElementId,
    args: Seq<TypeExprView>,
    margs: Seq<MultView>,
    target: ElementId,
    k: int,
)
    requires
        m.ranked(rank),
        m.supertypes_resolvable(),
        m.bounds_allocated(),
        m.valid_id(ae),
        forall|i: int| 0 <= i < args.len() ==> refs_valid(m, #[trigger] args[i]),
        0 <= k,
    ensures
        view_as_ancestor(m, rank, ae, args, margs, target, k) matches Some(v) ==> refs_valid(m, v),
    decreases rank(ae), super_count(m, ae) - k,
{
    if ae != target {
        match m.elem(ae) {
            Element::Class(c) => if k < c.super_types.len() {
                let sup = c.super_types@[k];
                assert(refs_valid(m, te_view(m.elem(ae)->Class_0.super_types@[k])));
                match sup {
                    TypeExpr::Named { element: st, type_arguments: sta, multiplicity_arguments: stm, .. } => {
                        crate::types::lemma_te_view_parts(sup);
                        lemma_named_ids_member(c.super_types@, k);
                        let j = choose|j: int|
                            0 <= j < named_ids(c.super_types@).len() && #[trigger] named_ids(
                                c.super_types@,
                            )[j] == st;
                        assert(m.direct_supers(ae)[j] == st);
                        let tsub = class_type_subst(c, args);
                        let msub = class_mult_subst(c, margs);
                        let lifted = Seq::new(
                            args.len(),
                            |i: int| lift_for_variance(variance_at(c, i), args[i]),
                        );
                        lemma_zip_map_values(strs_view(c.type_parameters@), lifted, args.len() as int);
                        assert(tsub.dom().finite());
                        assert forall|key: Seq<char>| #[trigger] tsub.contains_key(key) implies refs_valid(
                            m,
                            tsub[key],
                        ) by {
                            let i = choose|i: int|
                                0 <= i < args.len() && zip_map(
                                    strs_view(c.type_parameters@),
                                    lifted,
                                    args.len() as int,
                                )[key] == lifted[i];
                            assert(refs_valid(m, args[i]));
                        }
                        let sargs = Seq::new(
                            sta.len() as nat,
                            |j: int| subst_type(tsub, msub, te_view(sta@[j])),
                        );
                        assert forall|i: int| 0 <= i < sargs.len() implies refs_valid(m, #[trigger] sargs[i]) by {
                            assert(te_view(sup)->type_arguments[i] == te_view(sta@[i]));
                            lemma_subst_refs_valid(m, tsub, msub, te_view(sta@[i]));
                        }
                        let smargs = mults_view(stm@).map_values(|x: MultView| subst_mult(msub, x));
                        if st != target {
                            lemma_view_refs_valid(m, rank, st, sargs, smargs, target, 0);
                            lemma_view_refs_valid(m, rank, ae, args, margs, target, k + 1);
                        }
                    },
                    _ => {
                        lemma_view_refs_valid(m, rank, ae, args, margs, target, k + 1);
                    },
                }
            },
            _ => {},
        }
    }
}


// ---------------------------------------------------------------------------
// Binding: executable
// ---------------------------------------------------------------------------

/// Views of a list of function-type parameters.
pub open spec fn pairs_view(s: Seq<(TypeExpr, Multiplicity)>) -> Seq<(TypeExprView, MultView)> {
    s.map_values(|p: (TypeExpr, Multiplicity)| (p.0@, p.1@))
}

/// Views of a list of relation columns.
pub open spec fn cols_view(s: Seq<RelationColumnTypeExpr>) -> Seq<(Seq<char>, TypeExprView, MultView)> {
    s.map_values(|c: RelationColumnTypeExpr| (c.name@, c.type_expr@, c.multiplicity@))
}

/// The binding tables, viewed.
pub open spec fn tables_view(
    out: Seq<(String, TypeExpr)>,
    auth: Seq<(String, TypeExpr)>,
    mults: Seq<(String, Multiplicity)>,
) -> BindMaps {
    (assoc_view(out), assoc_view(auth), assoc_view(mults))
}

/// The tables are well formed and every type binding is resolvable.
pub open spec fn tables_ok(
    m: PureModel,
    out: Seq<(String, TypeExpr)>,
    auth: Seq<(String, TypeExpr)>,
    mults: Seq<(String, Multiplicity)>,
) -> bool {
    &&& names_unique(out)
    &&& names_unique(auth)
    &&& names_unique(mults)
    &&& values_valid(m, assoc_view(out))
    &&& values_valid(m, assoc_view(auth))
}

/// The model facts binding relies on: an acyclic, closed supertype graph,
/// resolvable supertype expressions, and allocated `any` and `nil`.
pub open spec fn binding_model_ok(m: PureModel) -> bool {
    &&& m.hierarchy_wf()
    &&& m.supertypes_resolvable()
    &&& m.bounds_allocated()
}

fn is_generic_type(t: &TypeExpr) -> (r: bool)
    ensures
        r == (t@ is Generic),
{
    proof {
        crate::types::lemma_te_view_parts(*t);
    }
    match t {
        TypeExpr::Generic(_) => true,
        _ => false,
    }
}

/// Records the binding of one type parameter in a type table: a first
/// binding is stored; an existing one widens to the bound (or, with
/// `widen` false, is replaced only while still a parameter).
fn record_type_binding(
    table: &mut Vec<(String, TypeExpr)>,
    name: &String,
    arg: &TypeExpr,
    model: &PureModel,
    widen: bool,
)
    requires
        names_unique(old(table)@),
        values_valid(*model, assoc_view(old(table)@)),
        binding_model_ok(*model),
        refs_valid(*model, arg@),
    ensures
        names_unique(final(table)@),
        values_valid(*model, assoc_view(final(table)@)),
        assoc_view(final(table)@) == if !assoc_view(old(table)@).contains_key(name@) {
            assoc_view(old(table)@).insert(name@, arg@)
        } else if widen {
            assoc_view(old(table)@).insert(
                name@,
                crate::resolve::type_lub_spec(*model, assoc_view(old(table)@)[name@], arg@),
            )
        } else if assoc_view(old(table)@)[name@] is Generic {
            assoc_view(old(table)@).insert(name@, arg@)
        } else {
            assoc_view(old(table)@)
        },
{
    let ghost before = assoc_view(table@);
    match lookup_binding(table, name.as_str()) {
        None => {
            set_binding(table, name.clone(), arg.duplicate());
        },
        Some(existing) => {
            if widen {
                proof {
                    lemma_refs_valid_ids_valid(*model, existing@);
                    lemma_refs_valid_ids_valid(*model, arg@);
                    lemma_type_lub_refs_valid(*model, existing@, arg@);
                    crate::resolve::lemma_ids_wf_global(*model, existing@);
                    crate::resolve::lemma_ids_wf_global(*model, arg@);
                }
                let l = crate::resolve::type_lub(existing, arg, model);
                set_binding(table, name.clone(), l);
            } else if is_generic_type(existing) {
                set_binding(table, name.clone(), arg.duplicate());
            }
        },
    }
    proof {
        assert forall|k: Seq<char>| #[trigger] assoc_view(table@).contains_key(k) implies refs_valid(
            *model,
            assoc_view(table@)[k],
        ) by {
            if k != name@ {
                assert(before.contains_key(k));
            }
        }
    }
}

fn bind_mults_pairwise(
    ps: &Vec<Multiplicity>,
    as_: &Vec<Multiplicity>,
    mult_out: &mut Vec<(String, Multiplicity)>,
    mode: RegisterMode,
)
    requires
        names_unique(old(mult_out)@),
    ensures
        names_unique(final(mult_out)@),
        assoc_view(final(mult_out)@) == bind_mults_fold(
            mults_view(ps@),
            mults_view(as_@),
            min_len(ps@.len(), as_@.len()),
            assoc_view(old(mult_out)@),
            mode,
        ),
{
    let ghost start = assoc_view(mult_out@);
    let n = if ps.len() <= as_.len() {
        ps.len()
    } else {
        as_.len()
    };
    let mut i: usize = 0;
    while i < n
        invariant
            n as int == min_len(ps@.len(), as_@.len()),
            i <= n,
            names_unique(mult_out@),
            assoc_view(mult_out@) == bind_mults_fold(mults_view(ps@), mults_view(as_@), i as int, start, mode),
        decreases n - i,
    {
        bind_mult_with_mode(&ps[i], &as_[i], mult_out, mode);
        i = i + 1;
    }
}

fn bind_types_pairwise(
    ps: &Vec<TypeExpr>,
    as_: &Vec<TypeExpr>,
    out: &mut Vec<(String, TypeExpr)>,
    ty_auth: &mut Vec<(String, TypeExpr)>,
    mult_out: &mut Vec<(String, Multiplicity)>,
    model: &PureModel,
    mode: RegisterMode,
    inside_structural: bool,
)
    requires
        tables_ok(*model, old(out)@, old(ty_auth)@, old(mult_out)@),
        binding_model_ok(*model),
        forall|i: int| 0 <= i < as_@.len() ==> refs_valid(*model, #[trigger] types_view(as_@)[i]),
    ensures
        tables_ok(*model, final(out)@, final(ty_auth)@, final(mult_out)@),
        tables_view(final(out)@, final(ty_auth)@, final(mult_out)@) == bind_seq(
            *model,
            types_view(ps@),
            types_view(as_@),
            min_len(ps@.len(), as_@.len()),
            tables_view(old(out)@, old(ty_auth)@, old(mult_out)@),
            mode,
            inside_structural,
        ),
    decreases ps, 0int,
{
    let ghost st0 = tables_view(out@, ty_auth@, mult_out@);
    let n = if ps.len() <= as_.len() {
        ps.len()
    } else {
        as_.len()
    };
    let mut i: usize = 0;
    while i < n
        invariant
            n as int == min_len(ps@.len(), as_@.len()),
            i <= n,
            binding_model_ok(*model),
            forall|i: int| 0 <= i < as_@.len() ==> refs_valid(*model, #[trigger] types_view(as_@)[i]),
            tables_ok(*model, out@, ty_auth@, mult_out@),
            tables_view(out@, ty_auth@, mult_out@) == bind_seq(
                *model,
                types_view(ps@),
                types_view(as_@),
                i as int,
                st0,
                mode,
                inside_structural,
            ),
        decreases n - i,
    {
        proof {
            vstd::std_specs::vec::axiom_vec_index_decreases(*ps, i as int);
            assert(types_view(as_@)[i as int] == as_@[i as int]@);
        }
        bind_type_with_mode(&ps[i], &as_[i], out, ty_auth, mult_out, model, mode, inside_structural);
        i = i + 1;
    }
}

fn bind_params_pairwise(
    ps: &Vec<(TypeExpr, Multiplicity)>,
    as_: &Vec<(TypeExpr, Multiplicity)>,
    out: &mut Vec<(String, TypeExpr)>,
    ty_auth: &mut Vec<(String, TypeExpr)>,
    mult_out: &mut Vec<(String, Multiplicity)>,
    model: &PureModel,
    mode: RegisterMode,
    inside_structural: bool,
)
    requires
        tables_ok(*model, old(out)@, old(ty_auth)@, old(mult_out)@),
        binding_model_ok(*model),
        forall|i: int| 0 <= i < as_@.len() ==> refs_valid(*model, (#[trigger] pairs_view(as_@)[i]).0),
    ensures
        tables_ok(*model, final(out)@, final(ty_auth)@, final(mult_out)@),
        tables_view(final(out)@, final(ty_auth)@, final(mult_out)@) == bind_params(
            *model,
            pairs_view(ps@),
            pairs_view(as_@),
            min_len(ps@.len(), as_@.len()),
            tables_view(old(out)@, old(ty_auth)@, old(mult_out)@),
            mode,
            inside_structural,
        ),
    decreases ps, 0int,
{
    let ghost st0 = tables_view(out@, ty_auth@, mult_out@);
    let n = if ps.len() <= as_.len() {
        ps.len()
    } else {
        as_.len()
    };
    let mut i: usize = 0;
    while i < n
        invariant
            n as int == min_len(ps@.len(), as_@.len()),
            i <= n,
            binding_model_ok(*model),
            forall|i: int| 0 <= i < as_@.len() ==> refs_valid(*model, (#[trigger] pairs_view(as_@)[i]).0),
            tables_ok(*model, out@, ty_auth@, mult_out@),
            tables_view(out@, ty_auth@, mult_out@) == bind_params(
                *model,
                pairs_view(ps@),
                pairs_view(as_@),
                i as int,
                st0,
                mode,
                inside_structural,
            ),
        decreases n - i,
    {
        proof {
            vstd::std_specs::vec::axiom_vec_index_decreases(*ps, i as int);
            assert(pairs_view(as_@)[i as int] == (as_@[i as int].0@, as_@[i as int].1@));
            assert(pairs_view(ps@)[i as int] == (ps@[i as int].0@, ps@[i as int].1@));
        }
        bind_type_with_mode(&ps[i].0, &as_[i].0, out, ty_auth, mult_out, model, mode, inside_structural);
        bind_mult_with_mode(&ps[i].1, &as_[i].1, mult_out, mode);
        i = i + 1;
    }
}

fn bind_columns_pairwise(
    ps: &Vec<RelationColumnTypeExpr>,
    as_: &Vec<RelationColumnTypeExpr>,
    out: &mut Vec<(String, TypeExpr)>,
    ty_auth: &mut Vec<(String, TypeExpr)>,
    mult_out: &mut Vec<(String, Multiplicity)>,
    model: &PureModel,
    mode: RegisterMode,
    inside_structural: bool,
)
    requires
        tables_ok(*model, old(out)@, old(ty_auth)@, old(mult_out)@),
        binding_model_ok(*model),
        forall|i: int| 0 <= i < as_@.len() ==> refs_valid(*model, (#[trigger] cols_view(as_@)[i]).1),
    ensures
        tables_ok(*model, final(out)@, final(ty_auth)@, final(mult_out)@),
        tables_view(final(out)@, final(ty_auth)@, final(mult_out)@) == bind_cols(
            *model,
            cols_view(ps@),
            cols_view(as_@),
            min_len(ps@.len(), as_@.len()),
            tables_view(old(out)@, old(ty_auth)@, old(mult_out)@),
            mode,
            inside_structural,
        ),
    decreases ps, 0int,
{
    let ghost st0 = tables_view(out@, ty_auth@, mult_out@);
    let n = if ps.len() <= as_.len() {
        ps.len()
    } else {
        as_.len()
    };
    let mut i: usize = 0;
    while i < n
        invariant
            n as int == min_len(ps@.len(), as_@.len()),
            i <= n,
            binding_model_ok(*model),
            forall|i: int| 0 <= i < as_@.len() ==> refs_valid(*model, (#[trigger] cols_view(as_@)[i]).1),
            tables_ok(*model, out@, ty_auth@, mult_out@),
            tables_view(out@, ty_auth@, mult_out@) == bind_cols(
                *model,
                cols_view(ps@),
                cols_view(as_@),
                i as int,
                st0,
                mode,
                inside_structural,
            ),
        decreases n - i,
    {
        proof {
            vstd::std_specs::vec::axiom_vec_index_decreases(*ps, i as int);
            assert(cols_view(as_@)[i as int] == (as_@[i as int].name@, as_@[i as int].type_expr@, as_@[i as int].multiplicity@));
            assert(cols_view(ps@)[i as int] == (ps@[i as int].name@, ps@[i as int].type_expr@, ps@[i as int].multiplicity@));
        }
        bind_type_with_mode(&ps[i].type_expr, &as_[i].type_expr, out, ty_auth, mult_out, model, mode, inside_structural);
        bind_mult_with_mode(&ps[i].multiplicity, &as_[i].multiplicity, mult_out, mode);
        i = i + 1;
    }
}

/// Position of the first function type among `v`.
fn find_function_type(v: &Vec<TypeExpr>) -> (r: Option<usize>)
    ensures
        match r {
            Some(i) => first_fn_index(types_view(v@), 0) == Some(i as int),
            None => first_fn_index(types_view(v@), 0) is None,
        },
{
    let ghost tv = types_view(v@);
    let mut i: usize = 0;
    while i < v.len()
        invariant
            i <= v.len(),
            tv == types_view(v@),
            first_fn_index(tv, 0) == first_fn_index(tv, i as int),
        decreases v.len() - i,
    {
        proof {
            crate::types::lemma_te_view_parts(v@[i as int]);
            assert(tv[i as int] == v@[i as int]@);
        }
        if let TypeExpr::FunctionType { .. } = &v[i] {
            return Some(i);
        }
        i = i + 1;
    }
    None
}

/// Matches parameter type `param_ty` against argument type `arg_ty`,
/// recording type-parameter bindings in `out` (and, inside a structural
/// function-type slot, in `ty_auth`) and multiplicity-parameter bindings
/// in `mult_out`, as `bind_spec` describes.
pub fn bind_type_with_mode(
    param_ty: &TypeExpr,
    arg_ty: &TypeExpr,
    out: &mut Vec<(String, TypeExpr)>,
    ty_auth: &mut Vec<(String, TypeExpr)>,
    mult_out: &mut Vec<(String, Multiplicity)>,
    model: &PureModel,
    mode: RegisterMode,
    inside_structural: bool,
)
    requires
        tables_ok(*model, old(out)@, old(ty_auth)@, old(mult_out)@),
        binding_model_ok(*model),
        refs_valid(*model, arg_ty@),
    ensures
        tables_ok(*model, final(out)@, final(ty_auth)@, final(mult_out)@),
        tables_view(final(out)@, final(ty_auth)@, final(mult_out)@) == bind_spec(
            *model,
            param_ty@,
            arg_ty@,
            tables_view(old(out)@, old(ty_auth)@, old(mult_out)@),
            mode,
            inside_structural,
        ),
    decreases param_ty, bind_flag(param_ty@, arg_ty@),
{
    proof {
        crate::types::lemma_te_view_parts(*param_ty);
        crate::types::lemma_te_view_parts(*arg_ty);
    }
    let ghost st0 = tables_view(out@, ty_auth@, mult_out@);
    if let TypeExpr::Unresolved = arg_ty {
        return;
    }
    match param_ty {
        TypeExpr::Generic(name) => {
            record_type_binding(out, name, arg_ty, model, mode == RegisterMode::Constraint);
            if inside_structural {
                record_type_binding(ty_auth, name, arg_ty, model, true);
            }
        },
        TypeExpr::Named { element: pe, type_arguments: pa, multiplicity_arguments: pm, .. } => {
            match arg_ty {
                TypeExpr::Named { element: ae, type_arguments: aa, multiplicity_arguments: am, .. } => {
                    assert(param_ty@->type_arguments =~= types_view(pa@));
                    assert(arg_ty@->type_arguments =~= types_view(aa@));
                    if *pe == *ae {
                        bind_types_pairwise(pa, aa, out, ty_auth, mult_out, model, mode, inside_structural);
                        bind_mults_pairwise(pm, am, mult_out, mode);
                    } else if crate::resolve::is_subtype_in(*ae, *pe, model) {
                        match subtype_view(*ae, aa, am, *pe, model) {
                            Some(view) => {
                                proof {
                                    lemma_view_is_target(*model, model.the_rank(), *ae, aa@.map_values(|t: TypeExpr| t@), mults_view(am@), *pe, 0);
                                    lemma_view_refs_valid(*model, model.the_rank(), *ae, types_view(aa@), mults_view(am@), *pe, 0);
                                }
                                bind_type_with_mode(param_ty, &view, out, ty_auth, mult_out, model, mode, inside_structural);
                            },
                            None => {},
                        }
                    }
                },
                TypeExpr::FunctionType { parameters: ap, return_type: ar, .. } => {
                    assert(param_ty@->type_arguments =~= types_view(pa@));
                    assert(arg_ty@->parameters =~= pairs_view(ap@));
                    match find_function_type(pa) {
                        Some(i) => {
                            proof {
                                lemma_first_fn_index(types_view(pa@), 0);
                                vstd::std_specs::vec::axiom_vec_index_decreases(*pa, i as int);
                                crate::types::lemma_te_view_parts(pa@[i as int]);
                            }
                            match &pa[i] {
                                TypeExpr::FunctionType { parameters: pp, return_type: pr, .. } => {
                                    assert(pa@[i as int]@->parameters =~= pairs_view(pp@));
                                    bind_params_pairwise(pp, ap, out, ty_auth, mult_out, model, mode, false);
                                    bind_type_with_mode(&**pr, &**ar, out, ty_auth, mult_out, model, mode, false);
                                },
                                _ => {},
                            }
                        },
                        None => {},
                    }
                },
                _ => {},
            }
        },
        TypeExpr::FunctionType { parameters: pp, return_type: pr, return_multiplicity: prm } => {
            match arg_ty {
                TypeExpr::FunctionType { parameters: ap, return_type: ar, return_multiplicity: arm } => {
                    assert(param_ty@->parameters =~= pairs_view(pp@));
                    assert(arg_ty@->parameters =~= pairs_view(ap@));
                    bind_params_pairwise(pp, ap, out, ty_auth, mult_out, model, mode, true);
                    bind_type_with_mode(&**pr, &**ar, out, ty_auth, mult_out, model, mode, true);
                    bind_mult_with_mode(prm, arm, mult_out, mode);
                },
                _ => {},
            }
        },
        TypeExpr::Relation(pc) => {
            match arg_ty {
                TypeExpr::Relation(ac) => {
                    assert(param_ty@->Relation_0 =~= cols_view(pc@));
                    assert(arg_ty@->Relation_0 =~= cols_view(ac@));
                    bind_columns_pairwise(pc, ac, out, ty_auth, mult_out, model, mode, inside_structural);
                },
                _ => {},
            }
        },
        _ => {},
    }
}

/// Constraint-mode binding of one parameter type against one argument
/// type, recording type-parameter bindings in `out`.
pub fn bind_type(param_ty: &TypeExpr, arg_ty: &TypeExpr, out: &mut Vec<(String, TypeExpr)>, model: &PureModel)
    requires
        names_unique(old(out)@),
        values_valid(*model, assoc_view(old(out)@)),
        binding_model_ok(*model),
        refs_valid(*model, arg_ty@),
    ensures
        names_unique(final(out)@),
        values_valid(*model, assoc_view(final(out)@)),
        assoc_view(final(out)@) == bind_spec(
            *model,
            param_ty@,
            arg_ty@,
            (assoc_view(old(out)@), Map::empty(), Map::empty()),
            RegisterMode::Constraint,
            false,
        ).0,
{
    let mut mult_out: Vec<(String, Multiplicity)> = Vec::new();
    let mut ty_auth: Vec<(String, TypeExpr)> = Vec::new();
    assert(assoc_view(mult_out@) =~= Map::<Seq<char>, MultView>::empty());
    assert(assoc_view(ty_auth@) =~= Map::<Seq<char>, TypeExprView>::empty());
    bind_type_with_mode(param_ty, arg_ty, out, &mut ty_auth, &mut mult_out, model, RegisterMode::Constraint, false);
}


// ---------------------------------------------------------------------------
// Laws
// ---------------------------------------------------------------------------

/// Whether the type parameter `name` occurs in `t`, at any depth.
pub open spec fn mentions(t: TypeExprView, name: Seq<char>) -> bool
    decreases t,
{
    match t {
        TypeExprView::Generic(n) => n == name,
        TypeExprView::Named { type_arguments, .. } => exists|i: int|
            0 <= i < type_arguments.len() && mentions(#[trigger] type_arguments[i], name),
        TypeExprView::FunctionType { parameters, return_type, .. } => (exists|i: int|
            0 <= i < parameters.len() && mentions(#[trigger] parameters[i].0, name)) || mentions(
            *return_type,
            name,
        ),
        TypeExprView::AlgebraUnion(a, b) => mentions(*a, name) || mentions(*b, name),
        TypeExprView::Relation(cols) => exists|i: int|
            0 <= i < cols.len() && mentions(#[trigger] cols[i].1, name),
        TypeExprView::Unresolved => false,
    }
}

/// `t` holds no type parameter and no multiplicity parameter.
pub open spec fn ground(t: TypeExprView) -> bool
    decreases t,
{
    match t {
        TypeExprView::Generic(_) => false,
        TypeExprView::Named { type_arguments, multiplicity_arguments, .. } => (forall|i: int|
            0 <= i < type_arguments.len() ==> ground(#[trigger] type_arguments[i])) && (forall|i: int|
            0 <= i < multiplicity_arguments.len() ==> !(#[trigger] multiplicity_arguments[i] is Variable)),
        TypeExprView::FunctionType { parameters, return_type, return_multiplicity } => (forall|i: int|
            0 <= i < parameters.len() ==> ground(#[trigger] parameters[i].0) && !(parameters[i].1 is Variable))
            && ground(*return_type) && !(return_multiplicity is Variable),
        TypeExprView::AlgebraUnion(a, b) => ground(*a) && ground(*b),
        TypeExprView::Relation(cols) => forall|i: int|
            0 <= i < cols.len() ==> ground(#[trigger] cols[i].1) && !(cols[i].2 is Variable),
        TypeExprView::Unresolved => true,
    }
}

/// Bindings to concrete types: each bound type parameter is bound to a
/// type that is not itself a parameter and does not mention `name`.
pub open spec fn concrete_bindings(tb: Map<Seq<char>, TypeExprView>, name: Seq<char>) -> bool {
    &&& tb.dom().finite()
    &&& forall|k: Seq<char>| #[trigger] tb.contains_key(k) ==> !(tb[k] is Generic) && !mentions(tb[k], name)
}

/// A type parameter bound to a concrete type is replaced by its binding.
pub proof fn lemma_subst_bound_parameter(
    tb: Map<Seq<char>, TypeExprView>,
    mb: Map<Seq<char>, MultView>,
    name: Seq<char>,
)
    requires
        tb.dom().finite(),
        tb.contains_key(name),
        !(tb[name] is Generic),
    ensures
        subst_type(tb, mb, TypeExprView::Generic(name)) == tb[name],
{
}

/// Once a type parameter is bound to a concrete type (and no binding
/// mentions it), it occurs nowhere in a substituted type: substitution
/// reaches every position, type arguments, function-type parameters and
/// return, union sides and relation columns.
pub proof fn lemma_subst_eliminates(
    tb: Map<Seq<char>, TypeExprView>,
    mb: Map<Seq<char>, MultView>,
    name: Seq<char>,
    t: TypeExprView,
)
    requires
        concrete_bindings(tb, name),
        tb.contains_key(name),
    ensures
        !mentions(subst_type(tb, mb, t), name),
    decreases t,
{
    let r = subst_type(tb, mb, t);
    match t {
        TypeExprView::Generic(n) => {
            if tb.contains_key(n) {
                assert(r == tb[n]);
            } else {
                assert(r == TypeExprView::Generic(n));
                assert(n != name);
            }
        },
        TypeExprView::Named { type_arguments, .. } => {
            assert forall|i: int| 0 <= i < r->Named_type_arguments.len() implies !mentions(
                #[trigger] r->Named_type_arguments[i],
                name,
            ) by {
                lemma_subst_eliminates(tb, mb, name, type_arguments[i]);
            }
        },
        TypeExprView::FunctionType { parameters, return_type, .. } => {
            assert forall|i: int| 0 <= i < r->FunctionType_parameters.len() implies !mentions(
                #[trigger] r->FunctionType_parameters[i].0,
                name,
            ) by {
                lemma_subst_eliminates(tb, mb, name, parameters[i].0);
            }
            lemma_subst_eliminates(tb, mb, name, *return_type);
        },
        TypeExprView::AlgebraUnion(a, b) => {
            lemma_subst_eliminates(tb, mb, name, *a);
            lemma_subst_eliminates(tb, mb, name, *b);
        },
        TypeExprView::Relation(cols) => {
            assert forall|i: int| 0 <= i < r->Relation_0.len() implies !mentions(#[trigger] r->Relation_0[i].1, name) by {
                lemma_subst_eliminates(tb, mb, name, cols[i].1);
            }
        },
        TypeExprView::Unresolved => {},
    }
}

/// Whether the multiplicity parameter `name` occurs in `t`, at any depth.
pub open spec fn mentions_mult(t: TypeExprView, name: Seq<char>) -> bool
    decreases t,
{
    match t {
        TypeExprView::Named { type_arguments, multiplicity_arguments, .. } => (exists|i: int|
            0 <= i < type_arguments.len() && mentions_mult(#[trigger] type_arguments[i], name)) || (exists|
            i: int,
        | 0 <= i < multiplicity_arguments.len() && #[trigger] multiplicity_arguments[i] == MultView::Variable(
            name,
        )),
        TypeExprView::FunctionType { parameters, return_type, return_multiplicity } => (exists|i: int|
            0 <= i < parameters.len() && (mentions_mult(#[trigger] parameters[i].0, name) || parameters[i].1
                == MultView::Variable(name))) || mentions_mult(*return_type, name) || return_multiplicity
            == MultView::Variable(name),
        TypeExprView::AlgebraUnion(a, b) => mentions_mult(*a, name) || mentions_mult(*b, name),
        TypeExprView::Relation(cols) => exists|i: int|
            0 <= i < cols.len() && (mentions_mult(#[trigger] cols[i].1, name) || cols[i].2 == MultView::Variable(
                name,
            )),
        _ => false,
    }
}

/// Once a multiplicity parameter is bound to a concrete multiplicity (all
/// multiplicity bindings concrete, and no type binding mentioning it), it
/// occurs nowhere in a substituted type.
pub proof fn lemma_subst_eliminates_mult(
    tb: Map<Seq<char>, TypeExprView>,
    mb: Map<Seq<char>, MultView>,
    name: Seq<char>,
    t: TypeExprView,
)
    requires
        tb.dom().finite(),
        mb.dom().finite(),
        mb.contains_key(name),
        forall|k: Seq<char>| #[trigger] mb.contains_key(k) ==> !(mb[k] is Variable),
        forall|k: Seq<char>| #[trigger] tb.contains_key(k) ==> !mentions_mult(tb[k], name),
    ensures
        !mentions_mult(subst_type(tb, mb, t), name),
    decreases t,
{
    let r = subst_type(tb, mb, t);
    match t {
        TypeExprView::Generic(n) => {
            lemma_chase_type_ends(tb, n, Set::empty());
        },
        TypeExprView::Named { type_arguments, multiplicity_arguments, .. } => {
            assert forall|i: int| 0 <= i < r->Named_type_arguments.len() implies !mentions_mult(
                #[trigger] r->Named_type_arguments[i],
                name,
            ) by {
                lemma_subst_eliminates_mult(tb, mb, name, type_arguments[i]);
            }
            assert forall|i: int| 0 <= i < r->Named_multiplicity_arguments.len() implies #[trigger] r->Named_multiplicity_arguments[i]
                != MultView::Variable(name) by {
                lemma_subst_mult_concrete(mb, name, multiplicity_arguments[i]);
            }
        },
        TypeExprView::FunctionType { parameters, return_type, return_multiplicity } => {
            assert forall|i: int| 0 <= i < r->FunctionType_parameters.len() implies !(mentions_mult(
                #[trigger] r->FunctionType_parameters[i].0,
                name,
            ) || r->FunctionType_parameters[i].1 == MultView::Variable(name)) by {
                lemma_subst_eliminates_mult(tb, mb, name, parameters[i].0);
                lemma_subst_mult_concrete(mb, name, parameters[i].1);
            }
            lemma_subst_eliminates_mult(tb, mb, name, *return_type);
            lemma_subst_mult_concrete(mb, name, return_multiplicity);
        },
        TypeExprView::AlgebraUnion(a, b) => {
            lemma_subst_eliminates_mult(tb, mb, name, *a);
            lemma_subst_eliminates_mult(tb, mb, name, *b);
        },
        TypeExprView::Relation(cols) => {
            assert forall|i: int| 0 <= i < r->Relation_0.len() implies !(mentions_mult(
                #[trigger] r->Relation_0[i].1,
                name,
            ) || r->Relation_0[i].2 == MultView::Variable(name)) by {
                lemma_subst_eliminates_mult(tb, mb, name, cols[i].1);
                lemma_subst_mult_concrete(mb, name, cols[i].2);
            }
        },
        TypeExprView::Unresolved => {},
    }
}

/// Resolving a multiplicity through concrete bindings never yields the
/// bound parameter `name`.
proof fn lemma_subst_mult_concrete(mb: Map<Seq<char>, MultView>, name: Seq<char>, m: MultView)
    requires
        mb.dom().finite(),
        mb.contains_key(name),
        forall|k: Seq<char>| #[trigger] mb.contains_key(k) ==> !(mb[k] is Variable),
    ensures
        subst_mult(mb, m) != MultView::Variable(name),
{
    if let MultView::Variable(n) = m {
        if mb.contains_key(n) {
            assert(!(mb[n] is Variable));
        }
    }
}

/// Resolving a type parameter from `seen` ends at a binding or at a
/// parameter.
proof fn lemma_chase_type_ends(tb: Map<Seq<char>, TypeExprView>, n: Seq<char>, seen: Set<Seq<char>>)
    requires
        tb.dom().finite(),
        seen.subset_of(tb.dom()),
    ensures
        chase_type(tb, n, seen) is Generic || exists|k: Seq<char>| #[trigger] tb.contains_key(k) && chase_type(
            tb,
            n,
            seen,
        ) == tb[k],
    decreases tb.dom().len() - seen.len(),
{
    if !seen.contains(n) && tb.contains_key(n) {
        match tb[n] {
            TypeExprView::Generic(next) => if next != n {
                vstd::set_lib::lemma_len_subset(seen.insert(n), tb.dom());
                lemma_chase_type_ends(tb, next, seen.insert(n));
            },
            _ => {},
        }
    }
}

/// A type with no parameters is left as it is by any substitution.
pub proof fn lemma_subst_ground(tb: Map<Seq<char>, TypeExprView>, mb: Map<Seq<char>, MultView>, t: TypeExprView)
    requires
        ground(t),
    ensures
        subst_type(tb, mb, t) == t,
    decreases t,
{
    let r = subst_type(tb, mb, t);
    match t {
        TypeExprView::Named { type_arguments, multiplicity_arguments, .. } => {
            assert forall|i: int| 0 <= i < type_arguments.len() implies r->Named_type_arguments[i]
                == type_arguments[i] by {
                lemma_subst_ground(tb, mb, type_arguments[i]);
            }
            assert(r->Named_type_arguments =~= type_arguments);
            assert(r->Named_multiplicity_arguments =~= multiplicity_arguments);
        },
        TypeExprView::FunctionType { parameters, return_type, .. } => {
            assert forall|i: int| 0 <= i < parameters.len() implies r->FunctionType_parameters[i] == parameters[i] by {
                lemma_subst_ground(tb, mb, parameters[i].0);
            }
            assert(r->FunctionType_parameters =~= parameters);
            lemma_subst_ground(tb, mb, *return_type);
        },
        TypeExprView::AlgebraUnion(a, b) => {
            lemma_subst_ground(tb, mb, *a);
            lemma_subst_ground(tb, mb, *b);
        },
        TypeExprView::Relation(cols) => {
            assert forall|i: int| 0 <= i < cols.len() implies r->Relation_0[i] == cols[i] by {
                lemma_subst_ground(tb, mb, cols[i].1);
            }
            assert(r->Relation_0 =~= cols);
        },
        _ => {},
    }
}

/// Substituting with no bindings changes nothing.
pub proof fn lemma_subst_empty(t: TypeExprView)
    ensures
        subst_type(Map::empty(), Map::empty(), t) == t,
    decreases t,
{
    let e = Map::<Seq<char>, TypeExprView>::empty();
    let em = Map::<Seq<char>, MultView>::empty();
    let r = subst_type(e, em, t);
    match t {
        TypeExprView::Named { type_arguments, multiplicity_arguments, .. } => {
            assert forall|i: int| 0 <= i < type_arguments.len() implies r->type_arguments[i]
                == type_arguments[i] by {
                lemma_subst_empty(type_arguments[i]);
            }
            assert(r->type_arguments =~= type_arguments);
            assert(r->multiplicity_arguments =~= multiplicity_arguments);
        },
        TypeExprView::FunctionType { parameters, return_type, .. } => {
            assert forall|i: int| 0 <= i < parameters.len() implies r->parameters[i] == parameters[i] by {
                lemma_subst_empty(parameters[i].0);
            }
            assert(r->parameters =~= parameters);
            lemma_subst_empty(*return_type);
        },
        TypeExprView::AlgebraUnion(a, b) => {
            lemma_subst_empty(*a);
            lemma_subst_empty(*b);
        },
        TypeExprView::Relation(cols) => {
            assert forall|i: int| 0 <= i < cols.len() implies r->Relation_0[i] == cols[i] by {
                lemma_subst_empty(cols[i].1);
            }
            assert(r->Relation_0 =~= cols);
        },
        _ => {},
    }
}

/// What binding records, substitution gives back: binding the type
/// parameter `name` against a concrete argument in fresh tables, then
/// substituting `name` through the resulting table, yields the argument.
pub proof fn lemma_bind_then_substitute(
    m: PureModel,
    name: Seq<char>,
    a: TypeExprView,
    mode: RegisterMode,
    inside: bool,
)
    requires
        !(a is Generic),
        !(a is Unresolved),
    ensures
        subst_type(
            bind_spec(
                m,
                TypeExprView::Generic(name),
                a,
                (Map::empty(), Map::empty(), Map::empty()),
                mode,
                inside,
            ).0,
            Map::empty(),
            TypeExprView::Generic(name),
        ) == a,
{
    let tb = Map::<Seq<char>, TypeExprView>::empty().insert(name, a);
    assert(tb.dom() =~= Set::<Seq<char>>::empty().insert(name));
    assert(tb.dom().finite());
    assert(Set::<Seq<char>>::empty().subset_of(tb.dom()));
    assert(chase_type(tb, name, Set::empty()) == a);
}

} // verus!

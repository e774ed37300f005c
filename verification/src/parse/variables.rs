//! The free variables of an expression: every name it refers to, in the
//! order of `str`, each once.

use vstd::prelude::*;

use crate::constants::text_precedes;
use crate::expression::model::{expr_models, lemma_expr_models, ExprModel, FunctionModel};
use crate::expression::{all_constant, is_constant_model, ArithmaExpression};

verus! {

/// The names a model refers to: a variable's own name, and the names in a
/// function's arguments. Other nodes contribute none.
pub open spec fn names_in(e: ExprModel) -> Set<Seq<char>>
    decreases e,
{
    match e {
        ExprModel::Variable(name) => set![name@],
        ExprModel::Function(_, args) => names_in_all(args),
        _ => Set::empty(),
    }
}

/// The names in a sequence of models.
pub open spec fn names_in_all(s: Seq<ExprModel>) -> Set<Seq<char>>
    decreases s,
{
    if s.len() == 0 {
        Set::empty()
    } else {
        names_in_all(s.subrange(0, s.len() - 1)).union(names_in(s[s.len() - 1]))
    }
}

/// The texts of a list of names.
pub open spec fn texts_of(v: Seq<String>) -> Set<Seq<char>> {
    Set::new(|t: Seq<char>| exists|i: int| 0 <= i < v.len() && (#[trigger] v[i])@ == t)
}

/// Strictly increasing in the order of `str`.
pub open spec fn strictly_sorted(v: Seq<String>) -> bool {
    forall|i: int, j: int| 0 <= i < j < v.len() ==> text_precedes(#[trigger] v[i]@, #[trigger] v[j]@)
}

/// No text precedes itself.
proof fn lemma_precedes_irreflexive(a: Seq<char>)
    ensures
        !text_precedes(a, a),
    decreases a.len(),
{
    if a.len() > 0 {
        lemma_precedes_irreflexive(a.drop_first());
    }
}

/// Of two different texts, one precedes the other.
proof fn lemma_precedes_total(a: Seq<char>, b: Seq<char>)
    requires
        a != b,
    ensures
        text_precedes(a, b) || text_precedes(b, a),
    decreases a.len(),
{
    if a.len() > 0 && b.len() > 0 && a[0] == b[0] {
        if a.drop_first() == b.drop_first() {
            assert(a.drop_first().len() == a.len() - 1);
            assert(b.drop_first().len() == b.len() - 1);
            assert(a.len() == b.len());
            assert(a =~= b) by {
                assert forall|i: int| 0 <= i < a.len() implies a[i] == b[i] by {
                    if i > 0 {
                        assert(a[i] == a.drop_first()[i - 1]);
                        assert(b[i] == b.drop_first()[i - 1]);
                    }
                }
            }
        }
        lemma_precedes_total(a.drop_first(), b.drop_first());
    } else if a.len() > 0 && b.len() > 0 {
        assert(a[0] < b[0] || b[0] < a[0]);
    } else if a.len() == 0 && b.len() == 0 {
        assert(a =~= b);
    }
}

/// Preceding is transitive.
proof fn lemma_precedes_transitive(a: Seq<char>, b: Seq<char>, c: Seq<char>)
    requires
        text_precedes(a, b),
        text_precedes(b, c),
    ensures
        text_precedes(a, c),
    decreases a.len(),
{
    if a.len() > 0 && b.len() > 0 && c.len() > 0 && a[0] == b[0] && b[0] == c[0] {
        lemma_precedes_transitive(a.drop_first(), b.drop_first(), c.drop_first());
    }
}

/// Whether `a` precedes `b` in the order of `str`.
fn text_before(a: &str, b: &str) -> (r: bool)
    ensures
        r == text_precedes(a@, b@),
{
    let n = a.unicode_len();
    let m = b.unicode_len();
    let mut i: usize = 0;
    assert(a@.skip(0) =~= a@);
    assert(b@.skip(0) =~= b@);
    while i < n && i < m
        invariant
            n == a@.len(),
            m == b@.len(),
            i <= n,
            i <= m,
            text_precedes(a@, b@) == text_precedes(a@.skip(i as int), b@.skip(i as int)),
        decreases n - i,
    {
        let x = a.get_char(i);
        let y = b.get_char(i);
        proof {
            assert(a@.skip(i as int).drop_first() =~= a@.skip(i + 1));
            assert(b@.skip(i as int).drop_first() =~= b@.skip(i + 1));
        }
        if x != y {
            return x < y;
        }
        i = i + 1;
    }
    i < m && i == n
}

/// Add the names `e` refers to onto `out`.
fn collect_variables(e: &ArithmaExpression, out: &mut Vec<String>)
    ensures
        texts_of(final(out)@) == texts_of(old(out)@).union(names_in(e@)),
    decreases e,
{
    match e {
        ArithmaExpression::Variable(name) => {
            let ghost before = out@;
            out.push(name.clone());
            proof {
                assert(texts_of(out@) =~= texts_of(before).union(names_in(e@))) by {
                    assert forall|t: Seq<char>| texts_of(out@).contains(t) implies texts_of(
                        before,
                    ).union(names_in(e@)).contains(t) by {
                        let i = choose|i: int| 0 <= i < out@.len() && (#[trigger] out@[i])@ == t;
                        if i < before.len() {
                            assert(before[i] == out@[i]);
                        }
                    }
                    assert forall|t: Seq<char>| texts_of(before).union(names_in(e@)).contains(
                        t,
                    ) implies texts_of(out@).contains(t) by {
                        if texts_of(before).contains(t) {
                            let i = choose|i: int|
                                0 <= i < before.len() && (#[trigger] before[i])@ == t;
                            assert(out@[i] == before[i]);
                        } else {
                            assert(out@[before.len() as int]@ == t);
                        }
                    }
                }
            }
        },
        ArithmaExpression::Function(f, args) => {
            let ghost start = out@;
            proof {
                lemma_expr_models(args@);
                assert(args@.subrange(0, 0) =~= Seq::<ArithmaExpression>::empty());
                assert(expr_models(args@.subrange(0, 0)) =~= Seq::<ExprModel>::empty());
                assert(texts_of(out@) =~= texts_of(start).union(Set::empty()));
            }
            let mut i: usize = 0;
            while i < args.len()
                invariant
                    i <= args@.len(),
                    *e == ArithmaExpression::Function(*f, *args),
                    texts_of(out@) == texts_of(start).union(
                        names_in_all(expr_models(args@.subrange(0, i as int))),
                    ),
                decreases args@.len() - i,
            {
                proof {
                    assert(decreases_to!(args@ => args@[i as int]));
                    assert(decreases_to!(*args => args@));
                    assert(decreases_to!(*e => (*e)->1));
                    assert(decreases_to!(*e => args@[i as int]));
                }
                collect_variables(&args[i], out);
                proof {
                    let head = args@.subrange(0, i as int);
                    let next = args@.subrange(0, i + 1);
                    lemma_expr_models(head);
                    lemma_expr_models(next);
                    assert(expr_models(next).subrange(0, i as int) =~= expr_models(head));
                    assert(expr_models(next)[i as int] == args@[i as int]@);
                    assert(texts_of(start).union(names_in_all(expr_models(head))).union(
                        names_in(args@[i as int]@),
                    ) =~= texts_of(start).union(names_in_all(expr_models(next))));
                }
                i = i + 1;
            }
            proof {
                assert(args@.subrange(0, args@.len() as int) =~= args@);
            }
        },
        _ => {
            proof {
                assert(texts_of(out@) =~= texts_of(out@).union(names_in(e@)));
            }
        },
    }
}

/// Insert `name` into a strictly sorted list unless it is there already.
fn insert_sorted(v: &mut Vec<String>, name: String)
    requires
        strictly_sorted(old(v)@),
    ensures
        strictly_sorted(final(v)@),
        texts_of(final(v)@) == texts_of(old(v)@).insert(name@),
{
    let ghost before = v@;
    let mut p: usize = 0;
    let mut placed = false;
    while p < v.len() && !placed
        invariant
            v@ == before,
            strictly_sorted(before),
            p <= before.len(),
            forall|k: int| 0 <= k < p ==> text_precedes(#[trigger] before[k]@, name@),
            placed ==> p < before.len() && text_precedes(name@, before[p as int]@),
        decreases before.len() - p + if placed { 0int } else { 1int },
    {
        if text_before(name.as_str(), v[p].as_str()) {
            placed = true;
        } else if text_before(v[p].as_str(), name.as_str()) {
            p = p + 1;
        } else {
            proof {
                if before[p as int]@ != name@ {
                    lemma_precedes_total(before[p as int]@, name@);
                }
                assert(texts_of(before).contains(name@));
                assert(texts_of(before).insert(name@) =~= texts_of(before));
            }
            return;
        }
    }
    proof {
        assert forall|k: int| p <= k < before.len() implies text_precedes(name@, #[trigger] before[k]@) by {
            if k > p {
                lemma_precedes_transitive(name@, before[p as int]@, before[k]@);
            }
        }
    }
    let ghost nm = name;
    v.insert(p, name);
    proof {
        assert(v@ == before.insert(p as int, nm));
        assert forall|i: int, j: int| 0 <= i < j < v@.len() implies text_precedes(
            #[trigger] v@[i]@,
            #[trigger] v@[j]@,
        ) by {
            if j < p {
            } else if j == p {
            } else if i < p {
                lemma_precedes_transitive(v@[i]@, nm@, v@[j]@);
            } else if i == p {
            } else {
                assert(v@[i] == before[i - 1]);
                assert(v@[j] == before[j - 1]);
            }
        }
        assert(texts_of(v@) =~= texts_of(before).insert(nm@)) by {
            assert forall|t: Seq<char>| texts_of(v@).contains(t) implies texts_of(before).insert(
                nm@,
            ).contains(t) by {
                let i = choose|i: int| 0 <= i < v@.len() && (#[trigger] v@[i])@ == t;
                if i < p {
                    assert(v@[i] == before[i]);
                } else if i > p {
                    assert(v@[i] == before[i - 1]);
                }
            }
            assert forall|t: Seq<char>| texts_of(before).insert(nm@).contains(t) implies texts_of(
                v@,
            ).contains(t) by {
                if t == nm@ {
                    assert(v@[p as int] == nm);
                } else {
                    let i = choose|i: int| 0 <= i < before.len() && (#[trigger] before[i])@ == t;
                    if i < p {
                        assert(v@[i] == before[i]);
                    } else {
                        assert(v@[i + 1] == before[i]);
                    }
                }
            }
        }
    }
}

/// Every name `expr` refers to, sorted in the order of `str` and each once.
pub fn free_variables(expr: &ArithmaExpression) -> (r: Vec<String>)
    ensures
        strictly_sorted(r@),
        texts_of(r@) == names_in(expr@),
{
    let mut all: Vec<String> = Vec::new();
    proof {
        assert(texts_of(all@) =~= Set::<Seq<char>>::empty());
    }
    collect_variables(expr, &mut all);
    let mut out: Vec<String> = Vec::new();
    proof {
        assert(texts_of(out@) =~= Set::<Seq<char>>::empty());
    }
    let mut i: usize = 0;
    while i < all.len()
        invariant
            i <= all@.len(),
            strictly_sorted(out@),
            texts_of(out@) == texts_of(all@.subrange(0, i as int)),
            texts_of(all@) == names_in(expr@),
        decreases all@.len() - i,
    {
        let name = all[i].clone();
        insert_sorted(&mut out, name);
        proof {
            let head = all@.subrange(0, i as int);
            let next = all@.subrange(0, i + 1);
            assert(texts_of(next) =~= texts_of(head).insert(all@[i as int]@)) by {
                assert forall|t: Seq<char>| texts_of(next).contains(t) implies texts_of(head).insert(
                    all@[i as int]@,
                ).contains(t) by {
                    let k = choose|k: int| 0 <= k < next.len() && (#[trigger] next[k])@ == t;
                    if k < i {
                        assert(head[k] == next[k]);
                    }
                }
                assert forall|t: Seq<char>| texts_of(head).insert(all@[i as int]@).contains(
                    t,
                ) implies texts_of(next).contains(t) by {
                    if t == all@[i as int]@ {
                        assert(next[i as int] == all@[i as int]);
                    } else {
                        let k = choose|k: int| 0 <= k < head.len() && (#[trigger] head[k])@ == t;
                        assert(next[k] == head[k]);
                    }
                }
            }
        }
        i = i + 1;
    }
    proof {
        assert(all@.subrange(0, all@.len() as int) =~= all@);
    }
    out
}

/// A sequence of constant models refers to no names.
proof fn lemma_constants_name_nothing(s: Seq<ExprModel>)
    requires
        all_constant(s),
    ensures
        names_in_all(s) == Set::<Seq<char>>::empty(),
    decreases s,
{
    if s.len() > 0 {
        let head = s.subrange(0, s.len() - 1);
        lemma_constants_name_nothing(head);
        law_constant_has_no_free_variables(s[s.len() - 1]);
        assert(names_in_all(s) =~= Set::<Seq<char>>::empty());
    }
}

/// An expression that `is_constant` accepts has no free variables: it
/// refers to no name at all.
pub proof fn law_constant_has_no_free_variables(e: ExprModel)
    requires
        is_constant_model(e),
    ensures
        names_in(e) == Set::<Seq<char>>::empty(),
    decreases e,
{
    match e {
        ExprModel::Function(_, args) => {
            lemma_constants_name_nothing(args);
        },
        _ => {},
    }
}

/// A name occurs in a sequence of models exactly when it occurs in one of
/// them.
proof fn lemma_names_in_all(s: Seq<ExprModel>, n: Seq<char>)
    ensures
        names_in_all(s).contains(n) <==> exists|i: int|
            0 <= i < s.len() && #[trigger] names_in(s[i]).contains(n),
    decreases s.len(),
{
    if s.len() > 0 {
        let head = s.subrange(0, s.len() - 1);
        lemma_names_in_all(head, n);
        if names_in_all(s).contains(n) {
            if names_in_all(head).contains(n) {
                let i = choose|i: int| 0 <= i < head.len() && #[trigger] names_in(head[i]).contains(n);
                assert(head[i] == s[i]);
            } else {
                assert(names_in(s[s.len() - 1]).contains(n));
            }
        }
        if exists|i: int| 0 <= i < s.len() && #[trigger] names_in(s[i]).contains(n) {
            let i = choose|i: int| 0 <= i < s.len() && #[trigger] names_in(s[i]).contains(n);
            if i < s.len() - 1 {
                assert(head[i] == s[i]);
            }
        }
    }
}

/// A variable's only free name is its own.
pub proof fn law_a_variable_names_itself(name: String)
    ensures
        names_in(ExprModel::Variable(name)) == set![name@],
{
}

/// Every function passes on the names of its arguments, whichever function
/// it is: a name is free in `f(args)` exactly when it is free in one of the
/// arguments.
pub proof fn law_a_call_names_what_its_arguments_name(
    f: FunctionModel,
    args: Seq<ExprModel>,
    n: Seq<char>,
)
    ensures
        names_in(ExprModel::Function(f, args)).contains(n) <==> exists|i: int|
            0 <= i < args.len() && #[trigger] names_in(args[i]).contains(n),
{
    lemma_names_in_all(args, n);
}

/// Only variables and the arguments of functions contribute names: a
/// literal, a constant, and the bounded sums, limits, products,
/// conditionals, cached values and Fourier-optimised nodes name nothing.
pub proof fn law_other_nodes_name_nothing(e: ExprModel)
    requires
        !(e is Variable || e is Function),
    ensures
        names_in(e) == Set::<Seq<char>>::empty(),
{
}

/// The order names are listed in is that of `str`: a proper prefix comes
/// before the longer name, and otherwise the first differing character
/// decides, by code point.
pub proof fn law_names_sort_by_code_point(a: Seq<char>, b: Seq<char>, k: int)
    requires
        0 <= k <= a.len(),
        k <= b.len(),
        a.subrange(0, k) == b.subrange(0, k),
    ensures
        k == a.len() && k < b.len() ==> text_precedes(a, b),
        k < a.len() && k < b.len() && a[k] < b[k] ==> text_precedes(a, b),
        k < a.len() && k < b.len() && b[k] < a[k] ==> text_precedes(b, a),
    decreases k,
{
    if k > 0 {
        assert(a[0] == a.subrange(0, k)[0]);
        assert(b[0] == b.subrange(0, k)[0]);
        assert(a.drop_first().subrange(0, k - 1) =~= b.drop_first().subrange(0, k - 1)) by {
            assert forall|x: int| 0 <= x < k - 1 implies a.drop_first()[x] == b.drop_first()[x] by {
                assert(a.subrange(0, k)[x + 1] == b.subrange(0, k)[x + 1]);
                assert(a.subrange(0, k)[x + 1] == a[x + 1]);
                assert(b.subrange(0, k)[x + 1] == b[x + 1]);
            }
        }
        law_names_sort_by_code_point(a.drop_first(), b.drop_first(), k - 1);
    }
}

} // verus!

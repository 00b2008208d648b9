//! Candidate generation: proposes new assumptions (subformulas of known
//! facts not yet known themselves) and dischargeable conclusions of the
//! innermost hypothesis, each ranked simplest-first by the size metric.

use vstd::prelude::*;

use crate::facts::Facts;
use crate::node::{lemma_take_to_set_step, SearchNode};
use crate::prop::{spec_len_capped, Proposition};

verus! {

/// `q` occurs inside `p` (as `p` itself or inside an operand).
pub open spec fn is_subformula(q: Proposition, p: Proposition) -> bool
    decreases p,
{
    q == p || match p {
        Proposition::And(l, r) => is_subformula(q, *l) || is_subformula(q, *r),
        Proposition::Or(l, r) => is_subformula(q, *l) || is_subformula(q, *r),
        Proposition::Implies(l, r) => is_subformula(q, *l) || is_subformula(q, *r),
        Proposition::Not(x) => is_subformula(q, *x),
        _ => false,
    }
}

/// `p` is a conjunction with `a` as one of its two conjuncts.
pub open spec fn spec_anded_with(p: Proposition, a: Proposition) -> bool {
    &&& p matches Proposition::And(l, r)
    &&& (*l == a || *r == a)
}

/// Decides [`spec_anded_with`].
pub fn anded_with(p: &Proposition, a: &Proposition) -> (r: bool)
    ensures
        r == spec_anded_with(*p, *a),
{
    match p {
        Proposition::And(l, x) => crate::prop::eq_prop(&**l, a) || crate::prop::eq_prop(&**x, a),
        _ => false,
    }
}

/// The candidates list is ordered simplest-first under the size metric.
pub open spec fn sorted_by_len(s: Seq<Proposition>) -> bool {
    forall|i: int, j: int|
        0 <= i <= j < s.len() ==> spec_len_capped(s[i]) <= spec_len_capped(s[j])
}

/// Collects every subformula of `p` that the fact set does not already
/// hold.
fn collect_subformulas(p: &Proposition, facts: &Facts, out: &mut Facts)
    requires
        old(out).wf(),
    ensures
        final(out).wf(),
        final(out)@ == old(out)@.union(
            Set::new(|q: Proposition| is_subformula(q, *p) && !facts@.contains(q)),
        ),
    decreases *p,
{
    if !facts.contains(p) {
        out.insert(p.clone());
    }
    match p {
        Proposition::And(l, r) => {
            collect_subformulas(&**l, facts, out);
            collect_subformulas(&**r, facts, out);
        },
        Proposition::Or(l, r) => {
            collect_subformulas(&**l, facts, out);
            collect_subformulas(&**r, facts, out);
        },
        Proposition::Implies(l, r) => {
            collect_subformulas(&**l, facts, out);
            collect_subformulas(&**r, facts, out);
        },
        Proposition::Not(x) => {
            collect_subformulas(&**x, facts, out);
        },
        _ => {},
    }
    proof {
        assert(final(out)@ =~= old(out)@.union(
            Set::new(|q: Proposition| is_subformula(q, *p) && !facts@.contains(q)),
        ));
    }
}

/// Sorts propositions ascending by the (saturated) size metric.
/// Selection sort; the result holds exactly the input propositions.
pub fn sort_by_len(v: Vec<Proposition>) -> (r: Vec<Proposition>)
    ensures
        r@.to_multiset() == v@.to_multiset(),
        sorted_by_len(r@),
        forall|q: Proposition| r@.contains(q) <==> v@.contains(q),
        v@.no_duplicates() ==> r@.no_duplicates(),
{
    broadcast use vstd::seq_lib::group_to_multiset_ensures;

    let mut rest = v;
    let mut out: Vec<Proposition> = Vec::new();
    let ghost orig = rest@.to_multiset();
    proof {
        assert(out@.to_multiset().add(rest@.to_multiset()) =~= orig);
    }
    loop
        invariant
            out@.to_multiset().add(rest@.to_multiset()) == orig,
            orig == v@.to_multiset(),
            sorted_by_len(out@),
            forall|i: int, j: int|
                0 <= i < out@.len() && 0 <= j < rest@.len() ==> spec_len_capped(out@[i])
                    <= spec_len_capped(rest@[j]),
        ensures
            rest@.len() == 0,
            out@.to_multiset() == orig,
            sorted_by_len(out@),
        decreases rest@.len(),
    {
        let n = rest.len();
        if n == 0 {
            proof {
                rest@.to_multiset_ensures();
                assert forall|q: Proposition| #[trigger] rest@.to_multiset().count(q) == 0 by {
                    assert(!rest@.contains(q));
                }
                assert(out@.to_multiset().add(rest@.to_multiset()) =~= out@.to_multiset());
            }
            break ;
        }
        let mut best: usize = 0;
        let mut best_len = rest[0].len_capped();
        for j in 1..n
            invariant
                n == rest@.len(),
                best < n,
                best_len == spec_len_capped(rest@[best as int]),
                forall|k: int|
                    0 <= k < j ==> spec_len_capped(rest@[best as int]) <= spec_len_capped(
                        rest@[k],
                    ),
        {
            let l = rest[j].len_capped();
            if l < best_len {
                best = j;
                best_len = l;
            }
        }
        let ghost rest_pre = rest@;
        let ghost out_pre = out@;
        let x = rest.remove(best);
        out.push(x);
        proof {
            rest_pre.to_multiset_ensures();
            out_pre.to_multiset_ensures();
            assert(rest@.to_multiset() =~= rest_pre.to_multiset().remove(rest_pre[best as int]));
            assert(out@.to_multiset() =~= out_pre.to_multiset().insert(x));
            assert(rest_pre.contains(rest_pre[best as int]));
            assert(out@.to_multiset().add(rest@.to_multiset()) =~= orig);
            assert forall|j: int| 0 <= j < rest@.len() implies spec_len_capped(x)
                <= spec_len_capped(rest@[j]) by {
                if j < best {
                    assert(rest@[j] == rest_pre[j]);
                } else {
                    assert(rest@[j] == rest_pre[j + 1]);
                }
            }
            assert forall|i: int, j: int|
                0 <= i < out@.len() && 0 <= j < rest@.len() implies spec_len_capped(out@[i])
                <= spec_len_capped(rest@[j]) by {
                if i < out_pre.len() {
                    assert(out@[i] == out_pre[i]);
                    assert(rest_pre.contains(rest@[j])) by {
                        if j < best {
                            assert(rest@[j] == rest_pre[j]);
                        } else {
                            assert(rest@[j] == rest_pre[j + 1]);
                        }
                    }
                }
            }
        }
    }
    proof {
        assert forall|q: Proposition| out@.contains(q) <==> v@.contains(q) by {
            assert(out@.contains(q) <==> out@.to_multiset().count(q) > 0);
            assert(v@.contains(q) <==> v@.to_multiset().count(q) > 0);
        }
        if v@.no_duplicates() {
            v@.lemma_multiset_has_no_duplicates();
            out@.lemma_multiset_has_no_duplicates_conv();
        }
    }
    out
}

/// Proposes new assumptions from a fact set: every subformula of a held
/// fact that is not itself already held, simplest first.
pub fn assumption_candidates(facts: &Facts) -> (v: Vec<Proposition>)
    requires
        facts.wf(),
    ensures
        forall|q: Proposition|
            v@.contains(q) <==> ((exists|p: Proposition|
                facts@.contains(p) && #[trigger] is_subformula(q, p)) && !facts@.contains(q)),
        sorted_by_len(v@),
        v@.no_duplicates(),
{
    let mut out = Facts::new();
    let n = facts.len();
    for i in 0..n
        invariant
            n == facts.sq().len(),
            facts.wf(),
            out.wf(),
            forall|q: Proposition|
                out@.contains(q) <==> ((exists|k: int|
                    0 <= k < i && #[trigger] is_subformula(q, facts.sq()[k])) && !facts@.contains(
                    q,
                )),
    {
        let ghost pre = out@;
        collect_subformulas(facts.get(i), facts, &mut out);
        proof {
            assert forall|q: Proposition|
                out@.contains(q) <==> ((exists|k: int|
                    0 <= k < i + 1 && #[trigger] is_subformula(q, facts.sq()[k]))
                    && !facts@.contains(q)) by {
                if out@.contains(q) && !pre.contains(q) {
                    assert(is_subformula(q, facts.sq()[i as int]));
                }
                if pre.contains(q) {
                    let k = choose|k: int|
                        0 <= k < i && #[trigger] is_subformula(q, facts.sq()[k]);
                    assert(0 <= k < i + 1 && is_subformula(q, facts.sq()[k]));
                }
                if !out@.contains(q) && (exists|k: int|
                    0 <= k < i + 1 && #[trigger] is_subformula(q, facts.sq()[k]))
                    && !facts@.contains(q) {
                    let k = choose|k: int|
                        0 <= k < i + 1 && #[trigger] is_subformula(q, facts.sq()[k]);
                    if k < i {
                        assert(pre.contains(q));
                    }
                }
            }
        }
    }
    proof {
        assert forall|q: Proposition, p: Proposition|
            facts@.contains(p) && #[trigger] is_subformula(q, p) && !facts@.contains(q)
            implies out@.contains(q) by {
            let k = choose|k: int| 0 <= k < facts.sq().len() && facts.sq()[k] == p;
        }
        assert forall|q: Proposition| out@.contains(q) implies ((exists|p: Proposition|
            facts@.contains(p) && #[trigger] is_subformula(q, p)) && !facts@.contains(q)) by {
            let k = choose|k: int|
                0 <= k < facts.sq().len() && #[trigger] is_subformula(q, facts.sq()[k]);
            assert(facts@.contains(facts.sq()[k]));
        }
        out.lemma_cardinality();
    }
    let unsorted = out.to_vec();
    let sorted = sort_by_len(unsorted);
    proof {
        assert(forall|q: Proposition| sorted@.contains(q) <==> out@.contains(q));
    }
    sorted
}

/// Proposes dischargeable conclusions of the innermost hypothesis: the
/// facts of its level that are genuinely new (invisible from every
/// enclosing scope), are not the assumption itself, and are not one of
/// the join products pairing the assumption with an outer fact —
/// simplest first, with the assumption they answer to. Yields nothing
/// when no hypothesis is open.
pub fn conclusion_candidates(node: &SearchNode) -> (r: Option<(Proposition, Vec<Proposition>)>)
    requires
        node.wf(),
    ensures
        r is Some <==> node.depth() > 0,
        r matches Some(pair) ==> pair.0 == node.assumptions@[node.depth() - 1].assumption,
        r matches Some(pair) ==> forall|q: Proposition|
            pair.1@.contains(q) <==> (node.active().contains(q) && !node.visible_upto(
                node.depth() - 1,
            ).contains(q) && q != pair.0 && !spec_anded_with(q, pair.0)),
        r matches Some(pair) ==> sorted_by_len(pair.1@) && pair.1@.no_duplicates(),
{
    let n = node.assumptions.len();
    if n == 0 {
        return None;
    }
    let h = &node.assumptions[n - 1];
    let ghost a = h.assumption;
    let level = &h.conclusions;
    let m = level.len();
    let mut picked = Facts::new();
    let ghost keepable = Set::new(
        |q: Proposition|
            !node.visible_upto(n - 1).contains(q) && q != a && !spec_anded_with(q, a),
    );
    proof {
        assert(picked@ =~= level.sq().take(0).to_set().intersect(keepable));
    }
    for i in 0..m
        invariant
            m == level.sq().len(),
            n == node.assumptions@.len(),
            n >= 1,
            node.wf(),
            *level == node.assumptions@[n - 1].conclusions,
            a == node.assumptions@[n - 1].assumption,
            h.assumption == a,
            keepable == Set::new(
                |q: Proposition|
                    !node.visible_upto(n - 1).contains(q) && q != a && !spec_anded_with(q, a),
            ),
            node.depth() == n,
            picked.wf(),
            picked@ == level.sq().take(i as int).to_set().intersect(keepable),
    {
        let q = level.get(i);
        let ghost ti = level.sq().take(i as int).to_set();
        proof {
            lemma_take_to_set_step(level.sq(), i as int);
        }
        let keep = !node.contains_except_last(q) && !crate::prop::eq_prop(q, &h.assumption)
            && !anded_with(q, &h.assumption);
        proof {
            assert(keep == keepable.contains(level.sq()[i as int]));
        }
        if keep {
            picked.insert(q.clone());
            proof {
                assert(picked@ =~= ti.insert(level.sq()[i as int]).intersect(keepable));
            }
        } else {
            proof {
                assert(picked@ =~= ti.insert(level.sq()[i as int]).intersect(keepable));
            }
        }
    }
    proof {
        assert(level.sq().take(m as int) =~= level.sq());
        assert(level.sq().to_set() =~= level@);
        assert(forall|q: Proposition|
            picked@.contains(q) <==> (node.active().contains(q) && !node.visible_upto(
                n - 1,
            ).contains(q) && q != a && !spec_anded_with(q, a)));
        picked.lemma_cardinality();
    }
    let assumption = h.assumption.clone();
    let unsorted = picked.to_vec();
    let v = sort_by_len(unsorted);
    proof {
        assert(forall|q: Proposition| v@.contains(q) <==> picked@.contains(q));
    }
    Some((assumption, v))
}

} // verus!

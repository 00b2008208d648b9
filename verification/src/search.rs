//! The breadth-first search driver: states are proof nodes, dequeued
//! strictly first-in first-out; a dequeued node is cut off at the
//! nesting-depth bound, tested against the target, enriched by join and
//! deduce, discharged into sibling states, and deepened with one new
//! assumption per candidate.

use vstd::prelude::*;

use crate::candidates::{assumption_candidates, conclusion_candidates, spec_anded_with};
use crate::facts::Facts;
use crate::node::{deduce, join, Hypothesis, SearchNode};
use crate::prop::{spec_and, Proposition};
use crate::rules;

verus! {

/// The maximum hypothesis-nesting depth explored by the search.
pub const MAX_DEPTH: usize = 3;

/// What a search run reports: a proof state whose premises hold the
/// target, exhaustion of the whole bounded search space, or an exhausted
/// visit budget.
pub enum SearchResult {
    Proved(SearchNode),
    Exhausted,
    OutOfBudget,
}

/// Discharge shape: a discharged hypothesis `a` with surviving
/// conclusion `c` re-enters play as exactly `a implies c` (never the
/// converse), and that fact participates in modus ponens as soon as `a`
/// is supplied next to it.
pub proof fn lemma_discharged_fact_applies(a: Proposition, c: Proposition)
    ensures
        rules::derivable(
            spec_and(a, Proposition::Implies(Box::new(a), Box::new(c))),
            c,
        ),
{
    let imp = Proposition::Implies(Box::new(a), Box::new(c));
    assert(rules::rule_modus_ponens(spec_and(a, imp), c));
}

/// Pops the innermost hypothesis `a` of a node and records, at the scope
/// that thereby becomes innermost, the fact `a implies c` — exactly in
/// that order — for the surviving conclusion `c`.
pub fn discharge(node: &SearchNode, c: &Proposition) -> (r: SearchNode)
    requires
        node.wf(),
        node.depth() > 0,
    ensures
        r.wf(),
        r.depth() == node.depth() - 1,
        forall|i: int|
            0 <= i < node.depth() - 1 ==> #[trigger] r.assumptions@[i].assumption
                == node.assumptions@[i].assumption,
        forall|i: int|
            0 <= i < node.depth() - 2 ==> #[trigger] r.assumptions@[i].conclusions@
                == node.assumptions@[i].conclusions@,
        r.active() == (if node.depth() == 1 {
            node.premises@
        } else {
            node.level(node.depth() - 2)
        }).insert(
            Proposition::Implies(
                Box::new(node.assumptions@[node.depth() - 1].assumption),
                Box::new(*c),
            ),
        ),
        node.depth() > 1 ==> r.premises@ == node.premises@,
{
    let mut r = node.clone();
    let n = r.assumptions.len();
    let ghost cl = r.assumptions@;
    let popped = r.assumptions.remove(n - 1);
    let fact = Proposition::Implies(Box::new(popped.assumption), Box::new(c.clone()));
    proof {
        assert forall|i: int| 0 <= i < r.depth() implies (
        #[trigger] r.assumptions@[i].conclusions).wf() by {
            assert(node.assumptions@[i].conclusions.wf());
        }
    }
    if r.assumptions.len() == 0 {
        r.premises.insert(fact);
        proof {
            assert(r.premises@ == node.premises@.insert(
                Proposition::Implies(
                    Box::new(node.assumptions@[node.depth() - 1].assumption),
                    Box::new(*c),
                ),
            ));
        }
    } else {
        let m = r.assumptions.len();
        let mut h = r.assumptions.remove(m - 1);
        h.conclusions.insert(fact);
        r.assumptions.push(h);
        proof {
            assert(cl.remove(n - 1) =~= cl.take(n - 1));
            assert(cl.take(n - 1).remove(m - 1) =~= cl.take(n - 2));
            assert(r.assumptions@ == cl.take(n - 2).push(h));
            assert forall|i: int| 0 <= i < r.depth() - 1 implies #[trigger] r.assumptions@[i]
                == cl[i] by {
                assert(r.assumptions@[i] == cl.take(n - 2)[i]);
            }
            assert forall|i: int| 0 <= i < r.depth() implies (
            #[trigger] r.assumptions@[i].conclusions).wf() by {
                if i < m - 1 {
                    assert(r.assumptions@[i] == cl[i]);
                    assert(cl[i].assumption == node.assumptions@[i].assumption);
                    assert(cl[i].conclusions.sq() == node.assumptions@[i].conclusions.sq());
                    assert(cl[i].conclusions@ == node.assumptions@[i].conclusions@);
                    assert(node.assumptions@[i].conclusions.wf());
                }
            }
            assert forall|i: int| 0 <= i < n - 2 implies #[trigger] r.assumptions@[i].conclusions@
                == node.assumptions@[i].conclusions@ by {
                assert(r.assumptions@[i] == cl[i]);
                assert(cl[i].assumption == node.assumptions@[i].assumption);
                assert(cl[i].conclusions.sq() == node.assumptions@[i].conclusions.sq());
            }
            assert(r.active() == h.conclusions@);
            assert(h.conclusions@ == cl[n - 2].conclusions@.insert(fact));
            assert(cl[n - 2].assumption == node.assumptions@[n - 2].assumption);
            assert(cl[n - 2].conclusions.sq() == node.assumptions@[n - 2].conclusions.sq());
            assert(cl[n - 2].conclusions@ == node.level(n - 2));
        }
    }
    r
}

/// The assumptions of the first `k` hypothesis levels, as a set.
pub open spec fn assumptions_upto(node: SearchNode, k: int) -> Set<Proposition>
    decreases k,
{
    if k <= 0 {
        Set::empty()
    } else {
        assumptions_upto(node, k - 1).insert(node.assumptions@[k - 1].assumption)
    }
}

/// Soundness of a proof state against the base premises `p0`: every
/// premise fact is a semantic consequence of `p0`, and every fact at a
/// hypothesis level is a semantic consequence of `p0` together with the
/// assumptions enclosing it.
pub open spec fn sound(node: SearchNode, p0: Set<Proposition>) -> bool {
    &&& forall|f: Proposition|
        node.premises@.contains(f) ==> crate::semantics::entails(p0, f)
    &&& forall|i: int, f: Proposition|
        0 <= i < node.depth() && (#[trigger] node.assumptions@[i].conclusions@.contains(f))
            ==> crate::semantics::entails(p0.union(assumptions_upto(node, i + 1)), f)
}

/// Two nodes whose leading assumptions agree carry the same assumption
/// sets.
proof fn lemma_assumptions_upto_eq(n1: SearchNode, n2: SearchNode, k: int)
    requires
        forall|i: int|
            0 <= i < k ==> #[trigger] n1.assumptions@[i].assumption
                == n2.assumptions@[i].assumption,
    ensures
        assumptions_upto(n1, k) == assumptions_upto(n2, k),
    decreases k,
{
    if k > 0 {
        lemma_assumptions_upto_eq(n1, n2, k - 1);
    }
}

/// Assumption sets grow with the level index.
proof fn lemma_assumptions_upto_grows(node: SearchNode, k1: int, k2: int)
    requires
        k1 <= k2,
    ensures
        assumptions_upto(node, k1).subset_of(assumptions_upto(node, k2)),
    decreases k2 - k1,
{
    if k1 < k2 {
        lemma_assumptions_upto_grows(node, k1, k2 - 1);
    }
}

/// Each leading assumption is in its own assumption set.
proof fn lemma_assumptions_upto_member(node: SearchNode, i: int, k: int)
    requires
        0 <= i < k,
    ensures
        assumptions_upto(node, k).contains(node.assumptions@[i].assumption),
    decreases k,
{
    if i < k - 1 {
        lemma_assumptions_upto_member(node, i, k - 1);
    }
}

/// The join step preserves soundness: each inserted conjunction pairs
/// the innermost assumption with a fact already entailed at an enclosing
/// scope.
proof fn lemma_sound_join(b: SearchNode, a: SearchNode, p0: Set<Proposition>)
    requires
        sound(b, p0),
        b.depth() > 0,
        a.depth() == b.depth(),
        a.premises@ == b.premises@,
        forall|i: int|
            0 <= i < b.depth() - 1 ==> #[trigger] a.assumptions@[i] == b.assumptions@[i],
        a.assumptions@[a.depth() - 1].assumption == b.assumptions@[b.depth() - 1].assumption,
        a.active() == b.active().union(
            crate::node::joined(
                b.assumptions@[b.depth() - 1].assumption,
                b.visible_upto(b.depth() - 1),
            ),
        ),
    ensures
        sound(a, p0),
{
    let d = b.depth();
    let hypo = b.assumptions@[d - 1].assumption;
    assert forall|i: int| 0 <= i < d implies #[trigger] a.assumptions@[i].assumption
        == b.assumptions@[i].assumption by {}
    lemma_assumptions_upto_eq(a, b, d);
    assert forall|i: int, f: Proposition|
        0 <= i < a.depth() && (#[trigger] a.assumptions@[i].conclusions@.contains(f))
        implies crate::semantics::entails(p0.union(assumptions_upto(a, i + 1)), f) by {
        lemma_assumptions_upto_eq(a, b, i + 1);
        if i < d - 1 {
            assert(b.assumptions@[i].conclusions@.contains(f));
        } else {
            let ctx = p0.union(assumptions_upto(b, d));
            if b.active().contains(f) {
                assert(b.assumptions@[d - 1].conclusions@.contains(f));
            } else {
                let g = choose|g: Proposition|
                    #[trigger] b.visible_upto(d - 1).contains(g) && f
                        == crate::prop::spec_and(hypo, g);
                assert(crate::semantics::entails(ctx, g)) by {
                    if b.premises@.contains(g) {
                        crate::semantics::lemma_entails_weaken(p0, ctx, g);
                    } else {
                        let j = choose|j: int|
                            0 <= j < d - 1 && #[trigger] b.assumptions@[j].conclusions@.contains(
                                g,
                            );
                        lemma_assumptions_upto_grows(b, j + 1, d);
                        crate::semantics::lemma_entails_weaken(
                            p0.union(assumptions_upto(b, j + 1)),
                            ctx,
                            g,
                        );
                    }
                }
                lemma_assumptions_upto_member(b, d - 1, d);
                assert forall|env: Set<u8>| crate::semantics::all_hold(env, ctx)
                    implies crate::semantics::eval(env, f) by {
                    assert(crate::semantics::eval(env, hypo));
                    assert(crate::semantics::eval(env, g));
                    crate::semantics::lemma_eval_and(env, hypo, g);
                }
            }
        }
    }
}

/// The deduce step preserves soundness: the rule catalog only ever adds
/// semantic consequences, and dropping facts cannot lose soundness.
proof fn lemma_sound_deduce(b: SearchNode, a: SearchNode, p0: Set<Proposition>)
    requires
        sound(b, p0),
        a.depth() == b.depth(),
        forall|i: int|
            0 <= i < b.depth() - 1 ==> #[trigger] a.assumptions@[i] == b.assumptions@[i],
        b.depth() == 0 ==> a.premises@ == crate::closure::closure(b.premises@)
            && a.assumptions@ == b.assumptions@,
        b.depth() > 0 ==> a.premises@ == b.premises@ && a.assumptions@[a.depth()
            - 1].assumption == b.assumptions@[b.depth() - 1].assumption && a.active().subset_of(
            crate::closure::closure(b.active()),
        ),
    ensures
        sound(a, p0),
{
    let d = b.depth();
    if d == 0 {
        crate::closure::lemma_closure_entailed(p0, b.premises@);
    } else {
        assert forall|i: int| 0 <= i < d implies #[trigger] a.assumptions@[i].assumption
            == b.assumptions@[i].assumption by {}
        assert forall|i: int, f: Proposition|
            0 <= i < a.depth() && (#[trigger] a.assumptions@[i].conclusions@.contains(f))
            implies crate::semantics::entails(p0.union(assumptions_upto(a, i + 1)), f) by {
            lemma_assumptions_upto_eq(a, b, i + 1);
            if i < d - 1 {
                assert(b.assumptions@[i].conclusions@.contains(f));
            } else {
                let ctx = p0.union(assumptions_upto(b, d));
                assert forall|g: Proposition| b.active().contains(g)
                    implies crate::semantics::entails(ctx, g) by {
                    assert(b.assumptions@[d - 1].conclusions@.contains(g));
                }
                crate::closure::lemma_closure_entailed(ctx, b.active());
            }
        }
    }
}

/// Opening a fresh hypothesis preserves soundness: its one fact is its
/// own assumption.
proof fn lemma_sound_deepen(b: SearchNode, a: SearchNode, hypo: Proposition, p0: Set<Proposition>)
    requires
        sound(b, p0),
        a.depth() == b.depth() + 1,
        a.premises@ == b.premises@,
        forall|i: int|
            0 <= i < b.depth() ==> #[trigger] a.assumptions@[i].assumption
                == b.assumptions@[i].assumption && a.assumptions@[i].conclusions@
                == b.assumptions@[i].conclusions@,
        a.assumptions@[a.depth() - 1].assumption == hypo,
        a.assumptions@[a.depth() - 1].conclusions@ == Set::<Proposition>::empty().insert(hypo),
    ensures
        sound(a, p0),
{
    let d = b.depth();
    assert forall|i: int, f: Proposition|
        0 <= i < a.depth() && (#[trigger] a.assumptions@[i].conclusions@.contains(f))
        implies crate::semantics::entails(p0.union(assumptions_upto(a, i + 1)), f) by {
        lemma_assumptions_upto_eq(a, b, i);
        if i < d {
            lemma_assumptions_upto_eq(a, b, i + 1);
            assert(b.assumptions@[i].conclusions@.contains(f));
        } else {
            assert(f == hypo);
            lemma_assumptions_upto_member(a, d, d + 1);
            let ctx = p0.union(assumptions_upto(a, d + 1));
            assert(ctx.contains(hypo));
        }
    }
}

/// Discharging preserves soundness: this is the deduction theorem of
/// classical semantics, applied to one hypothesis level.
proof fn lemma_sound_discharge(
    b: SearchNode,
    a: SearchNode,
    c: Proposition,
    p0: Set<Proposition>,
)
    requires
        sound(b, p0),
        b.depth() > 0,
        b.active().contains(c),
        a.depth() == b.depth() - 1,
        forall|i: int|
            0 <= i < b.depth() - 1 ==> #[trigger] a.assumptions@[i].assumption
                == b.assumptions@[i].assumption,
        forall|i: int|
            0 <= i < b.depth() - 2 ==> #[trigger] a.assumptions@[i].conclusions@
                == b.assumptions@[i].conclusions@,
        a.active() == (if b.depth() == 1 {
            b.premises@
        } else {
            b.level(b.depth() - 2)
        }).insert(
            Proposition::Implies(
                Box::new(b.assumptions@[b.depth() - 1].assumption),
                Box::new(c),
            ),
        ),
        b.depth() > 1 ==> a.premises@ == b.premises@,
        b.depth() == 1 ==> a.depth() == 0,
    ensures
        sound(a, p0),
{
    let d = b.depth();
    let hypo = b.assumptions@[d - 1].assumption;
    let imp = Proposition::Implies(Box::new(hypo), Box::new(c));
    let ctx_inner = p0.union(assumptions_upto(b, d));
    let ctx_outer = p0.union(assumptions_upto(b, d - 1));
    assert(b.assumptions@[d - 1].conclusions@.contains(c));
    assert(crate::semantics::entails(ctx_inner, c));
    assert(crate::semantics::entails(ctx_outer, imp)) by {
        assert forall|env: Set<u8>| crate::semantics::all_hold(env, ctx_outer)
            implies crate::semantics::eval(env, imp) by {
            if crate::semantics::eval(env, hypo) {
                assert(crate::semantics::all_hold(env, ctx_inner)) by {
                    assert forall|f: Proposition| ctx_inner.contains(f)
                        implies crate::semantics::eval(env, f) by {
                        if f != hypo {
                            assert(assumptions_upto(b, d) == assumptions_upto(
                                b,
                                d - 1,
                            ).insert(hypo));
                            assert(ctx_outer.contains(f));
                        }
                    }
                }
                assert(crate::semantics::eval(env, c));
            }
        }
    }
    lemma_assumptions_upto_eq(a, b, d - 1);
    if d == 1 {
        assert(assumptions_upto(b, 0) =~= Set::<Proposition>::empty());
        assert(p0.union(assumptions_upto(b, 0)) =~= p0);
        assert forall|f: Proposition| a.premises@.contains(f)
            implies crate::semantics::entails(p0, f) by {
            if f != imp {
                assert(b.premises@.contains(f));
            }
        }
    } else {
        assert forall|i: int, f: Proposition|
            0 <= i < a.depth() && (#[trigger] a.assumptions@[i].conclusions@.contains(f))
            implies crate::semantics::entails(p0.union(assumptions_upto(a, i + 1)), f) by {
            lemma_assumptions_upto_eq(a, b, i + 1);
            if i < d - 2 {
                assert(b.assumptions@[i].conclusions@.contains(f));
            } else {
                assert(i == d - 2);
                if f != imp {
                    assert(b.assumptions@[d - 2].conclusions@.contains(f));
                }
            }
        }
    }
}

/// Searches breadth-first for a derivation of the target from the
/// premises, visiting at most `max_visits` states. Reports a proof state
/// whose premise scope holds the target, or that the bounded space was
/// exhausted without one, or that the visit budget ran out first. The
/// budget is explicit because the search space itself can grow without
/// bound as discharged implications feed new join products.
///
/// A reported proof is sound: the target is then a classical semantic
/// consequence of the premises. A target already in the deductive
/// closure of the premises is always found.
pub fn proof_search(premises: Facts, target: &Proposition, max_visits: usize) -> (r: SearchResult)
    requires
        premises.wf(),
    ensures
        r matches SearchResult::Proved(node) ==> node.wf() && node.premises@.contains(*target)
            && crate::semantics::entails(premises@, *target),
        max_visits >= 1 && crate::closure::closure(premises@).contains(*target) ==> r is Proved,
{
    let ghost p0 = premises@;
    let mut queue: Vec<SearchNode> = Vec::new();
    let mut root = SearchNode { premises, assumptions: Vec::new() };
    proof {
        assert(sound(root, p0)) by {
            assert forall|f: Proposition| root.premises@.contains(f)
                implies crate::semantics::entails(p0, f) by {
                assert forall|env: Set<u8>| crate::semantics::all_hold(env, p0)
                    implies crate::semantics::eval(env, f) by {}
            }
        }
    }
    let ghost root_pre = root;
    deduce(&mut root);
    proof {
        lemma_sound_deduce(root_pre, root, p0);
    }
    queue.push(root);
    let mut fuel = max_visits;
    while queue.len() > 0 && fuel > 0
        invariant
            p0 == premises@,
            fuel <= max_visits,
            max_visits >= 1 && crate::closure::closure(p0).contains(*target) ==> fuel
                == max_visits && queue@.len() > 0 && queue@[0].premises@.contains(*target)
                && queue@[0].assumptions@.len() == 0,
            forall|i: int|
                0 <= i < queue@.len() ==> (#[trigger] queue@[i]).wf() && sound(queue@[i], p0),
        decreases fuel,
    {
        fuel = fuel - 1;
        let ghost queue_pre = queue@;
        let mut node = queue.remove(0);
        proof {
            assert forall|i: int| 0 <= i < queue@.len() implies (#[trigger] queue@[i]).wf()
                && sound(queue@[i], p0) by {
                assert(queue@[i] == queue_pre[i + 1]);
            }
        }
        // Depth cutoff: abandon branches nested too deeply.
        if node.assumptions.len() >= MAX_DEPTH {
            continue ;
        }
        // Target test against the premise scope.
        if node.premises.contains(target) {
            proof {
                assert(crate::semantics::entails(p0, *target));
            }
            return SearchResult::Proved(node);
        }
        // Enrichment: join, then deduce, on the innermost level.
        let ghost before_join = node;
        join(&mut node);
        proof {
            if before_join.depth() > 0 {
                lemma_sound_join(before_join, node, p0);
            }
        }
        let ghost before_deduce = node;
        deduce(&mut node);
        proof {
            lemma_sound_deduce(before_deduce, node, p0);
        }
        // Discharge: each surviving conclusion of the innermost
        // hypothesis spawns a sibling state one level up.
        let conclusion = conclusion_candidates(&node);
        if let Some((popped_assumption, cands)) = conclusion {
            proof {
                assert forall|q: Proposition| cands@.contains(q)
                    implies node.active().contains(q) by {
                    assert(cands@.contains(q) <==> (node.active().contains(q)
                        && !node.visible_upto(node.depth() - 1).contains(q) && q
                        != popped_assumption && !spec_anded_with(q, popped_assumption)));
                }
            }
            let k = cands.len();
            for ci in 0..k
                invariant
                    node.wf(),
                    sound(node, p0),
                    node.depth() > 0,
                    k == cands@.len(),
                    forall|q: Proposition| cands@.contains(q) ==> node.active().contains(q),
                    forall|i: int|
                        0 <= i < queue@.len() ==> (#[trigger] queue@[i]).wf() && sound(
                            queue@[i],
                            p0,
                        ),
            {
                let child = discharge(&node, &cands[ci]);
                proof {
                    assert(cands@.contains(cands@[ci as int]));
                    lemma_sound_discharge(node, child, cands@[ci as int], p0);
                }
                queue.push(child);
            }
        }
        // Deepen: open one new hypothesis per assumption candidate.
        let a_cands = assumption_candidates(node.last());
        let k = a_cands.len();
        for ai in 0..k
            invariant
                node.wf(),
                sound(node, p0),
                node.depth() < MAX_DEPTH,
                k == a_cands@.len(),
                forall|i: int|
                    0 <= i < queue@.len() ==> (#[trigger] queue@[i]).wf() && sound(queue@[i], p0),
        {
            let mut child = node.clone();
            let ghost cloned = child;
            child.assumptions.push(Hypothesis::from_assumption(a_cands[ai].clone()));
            proof {
                assert forall|i: int| 0 <= i < child.depth() implies (
                #[trigger] child.assumptions@[i].conclusions).wf() by {
                    if i < child.depth() - 1 {
                        assert(node.assumptions@[i].conclusions.wf());
                    }
                }
                assert forall|i: int| 0 <= i < node.depth()
                    implies #[trigger] child.assumptions@[i].assumption
                    == node.assumptions@[i].assumption && child.assumptions@[i].conclusions@
                    == node.assumptions@[i].conclusions@ by {
                    assert(child.assumptions@[i] == cloned.assumptions@[i]);
                    assert(cloned.assumptions@[i].assumption == node.assumptions@[i].assumption);
                    assert(cloned.assumptions@[i].conclusions.sq()
                        == node.assumptions@[i].conclusions.sq());
                }
                lemma_sound_deepen(node, child, a_cands@[ai as int], p0);
            }
            queue.push(child);
        }
    }
    if queue.len() == 0 {
        SearchResult::Exhausted
    } else {
        SearchResult::OutOfBudget
    }
}

} // verus!

//! The deductive-closure operator: the least fixed point of a fact set
//! under repeated one-step rule application, computed by saturating
//! passes, together with its laws (idempotence among them) and a proof
//! that saturation terminates.

use vstd::prelude::*;

use crate::facts::Facts;
use crate::prop::Proposition;
use crate::rules::{derivable, single_prop_conclusions};
use crate::universe;

verus! {

/// `q` is derivable from the set `s` in at most `n` rule steps.
pub open spec fn reach(s: Set<Proposition>, q: Proposition, n: nat) -> bool
    decreases n,
{
    if n == 0 {
        s.contains(q)
    } else {
        reach(s, q, (n - 1) as nat) || exists|p: Proposition|
            reach(s, p, (n - 1) as nat) && #[trigger] derivable(p, q)
    }
}

/// `q` is derivable from `s` in finitely many rule steps.
pub open spec fn in_closure(s: Set<Proposition>, q: Proposition) -> bool {
    exists|n: nat| reach(s, q, n)
}

/// The deductive closure: everything derivable from `s`.
pub open spec fn closure(s: Set<Proposition>) -> Set<Proposition> {
    Set::new(|q: Proposition| in_closure(s, q))
}

/// A set closed under one-step derivation.
pub open spec fn closed(s: Set<Proposition>) -> bool {
    forall|p: Proposition, q: Proposition|
        s.contains(p) && #[trigger] derivable(p, q) ==> s.contains(q)
}

/// A set is contained in its own closure.
pub proof fn lemma_closure_grows(s: Set<Proposition>)
    ensures
        s.subset_of(closure(s)),
{
    assert forall|q: Proposition| s.contains(q) implies closure(s).contains(q) by {
        assert(reach(s, q, 0));
    }
}

/// The closure is closed under one-step derivation.
pub proof fn lemma_closure_closed(s: Set<Proposition>)
    ensures
        closed(closure(s)),
{
    assert forall|p: Proposition, q: Proposition|
        closure(s).contains(p) && #[trigger] derivable(p, q) implies closure(s).contains(q) by {
        let n = choose|n: nat| reach(s, p, n);
        assert(reach(s, q, n + 1));
    }
}

/// Anything reachable from a subset of a closed set lies in that set.
proof fn lemma_reach_in_closed(s: Set<Proposition>, t: Set<Proposition>, q: Proposition, n: nat)
    requires
        s.subset_of(t),
        closed(t),
        reach(s, q, n),
    ensures
        t.contains(q),
    decreases n,
{
    if n > 0 {
        if reach(s, q, (n - 1) as nat) {
            lemma_reach_in_closed(s, t, q, (n - 1) as nat);
        } else {
            let p = choose|p: Proposition| reach(s, p, (n - 1) as nat) && #[trigger] derivable(
                p,
                q,
            );
            lemma_reach_in_closed(s, t, p, (n - 1) as nat);
        }
    }
}

/// The closure is the least closed superset: any closed set containing
/// `s` contains the whole closure of `s`.
pub proof fn lemma_closure_least(s: Set<Proposition>, t: Set<Proposition>)
    requires
        s.subset_of(t),
        closed(t),
    ensures
        closure(s).subset_of(t),
{
    assert forall|q: Proposition| closure(s).contains(q) implies t.contains(q) by {
        let n = choose|n: nat| reach(s, q, n);
        lemma_reach_in_closed(s, t, q, n);
    }
}

/// The closure operator is monotone.
pub proof fn lemma_closure_monotone(s: Set<Proposition>, t: Set<Proposition>)
    requires
        s.subset_of(t),
    ensures
        closure(s).subset_of(closure(t)),
{
    lemma_closure_grows(t);
    lemma_closure_closed(t);
    lemma_closure_least(s, closure(t));
}

/// Closure idempotence: deducing everything from an already-deduced set
/// adds nothing.
pub proof fn lemma_closure_idempotent(s: Set<Proposition>)
    ensures
        closure(closure(s)) == closure(s),
{
    lemma_closure_closed(s);
    lemma_closure_least(closure(s), closure(s));
    lemma_closure_grows(closure(s));
    assert(closure(closure(s)) =~= closure(s));
}

/// Everything in the closure respects the node-count bound of the
/// originating set.
pub proof fn lemma_closure_bounded(s: Set<Proposition>, b: nat)
    requires
        forall|p: Proposition| s.contains(p) ==> universe::spec_size(p) <= b,
    ensures
        closure(s).subset_of(universe::props_upto(b)),
{
    assert forall|p: Proposition, q: Proposition|
        universe::props_upto(b).contains(p) && #[trigger] derivable(p, q)
        implies universe::props_upto(b).contains(q) by {
        universe::lemma_derivable_size(p, q);
    }
    lemma_closure_least(s, universe::props_upto(b));
}

/// Soundness of reaching a fact: a conclusion reached in `n` rule steps
/// from facts that a context entails is itself entailed.
proof fn lemma_reach_entailed(
    ctx: Set<Proposition>,
    s: Set<Proposition>,
    f: Proposition,
    n: nat,
)
    requires
        forall|g: Proposition| s.contains(g) ==> crate::semantics::entails(ctx, g),
        reach(s, f, n),
    ensures
        crate::semantics::entails(ctx, f),
    decreases n,
{
    if n > 0 {
        if reach(s, f, (n - 1) as nat) {
            lemma_reach_entailed(ctx, s, f, (n - 1) as nat);
        } else {
            let p = choose|p: Proposition| reach(s, p, (n - 1) as nat) && #[trigger] derivable(
                p,
                f,
            );
            lemma_reach_entailed(ctx, s, p, (n - 1) as nat);
            crate::semantics::lemma_rules_sound(p, f);
        }
    }
}

/// Soundness of the closure operator: everything derivable from facts
/// that a context entails is itself entailed by that context.
pub proof fn lemma_closure_entailed(ctx: Set<Proposition>, s: Set<Proposition>)
    requires
        forall|g: Proposition| s.contains(g) ==> crate::semantics::entails(ctx, g),
    ensures
        forall|f: Proposition| closure(s).contains(f) ==> crate::semantics::entails(ctx, f),
{
    assert forall|f: Proposition| closure(s).contains(f) implies crate::semantics::entails(
        ctx,
        f,
    ) by {
        let n = choose|n: nat| reach(s, f, n);
        lemma_reach_entailed(ctx, s, f, n);
    }
}

/// One saturation pass: the input facts together with every one-step
/// conclusion of each of them.
fn extend_once(facts: &Facts) -> (out: Facts)
    requires
        facts.wf(),
    ensures
        out.wf(),
        facts@.subset_of(out@),
        forall|q: Proposition|
            out@.contains(q) <==> (facts@.contains(q) || exists|p: Proposition|
                facts@.contains(p) && #[trigger] derivable(p, q)),
{
    let mut out = facts.clone();
    let n = facts.len();
    for i in 0..n
        invariant
            n == facts.sq().len(),
            facts.wf(),
            out.wf(),
            facts@.subset_of(out@),
            forall|q: Proposition|
                out@.contains(q) ==> (facts@.contains(q) || exists|p: Proposition|
                    facts@.contains(p) && #[trigger] derivable(p, q)),
            forall|k: int, q: Proposition|
                0 <= k < i && #[trigger] derivable(facts.sq()[k], q) ==> out@.contains(q),
    {
        let p = facts.get(i);
        let conclusions = single_prop_conclusions(p);
        let m = conclusions.len();
        proof {
            assert(facts@.contains(facts.sq()[i as int]));
        }
        for j in 0..m
            invariant
                m == conclusions.sq().len(),
                conclusions.wf(),
                out.wf(),
                facts.wf(),
                facts@.subset_of(out@),
                facts@.contains(facts.sq()[i as int]),
                forall|q: Proposition| conclusions@.contains(q) <==> derivable(
                    facts.sq()[i as int],
                    q,
                ),
                forall|q: Proposition|
                    out@.contains(q) ==> (facts@.contains(q) || exists|p2: Proposition|
                        facts@.contains(p2) && #[trigger] derivable(p2, q)),
                forall|k: int, q: Proposition|
                    0 <= k < i && #[trigger] derivable(facts.sq()[k], q) ==> out@.contains(q),
                forall|jj: int| 0 <= jj < j ==> out@.contains(conclusions.sq()[jj]),
        {
            let c = conclusions.get(j);
            out.insert(c.clone());
        }
        proof {
            assert forall|q: Proposition| derivable(facts.sq()[i as int], q)
                implies out@.contains(q) by {
                assert(conclusions@.contains(q));
                let jj = choose|jj: int|
                    0 <= jj < conclusions.sq().len() && conclusions.sq()[jj] == q;
            }
        }
    }
    proof {
        assert forall|q: Proposition|
            (facts@.contains(q) || exists|p: Proposition|
                facts@.contains(p) && #[trigger] derivable(p, q)) implies out@.contains(q) by {
            if !facts@.contains(q) {
                let p = choose|p: Proposition| facts@.contains(p) && #[trigger] derivable(p, q);
                let k = choose|k: int| 0 <= k < facts.sq().len() && facts.sq()[k] == p;
            }
        }
    }
    out
}

/// Computes the deductive closure of a fact set: repeats saturation
/// passes until the set size stops growing. This terminates: no rule
/// grows a formula's node count, so the whole run lives inside the
/// finite universe of formulas no larger than the biggest input.
pub fn saturate(facts: &Facts) -> (r: Facts)
    requires
        facts.wf(),
    ensures
        r.wf(),
        r@ == closure(facts@),
{
    let ghost bound: nat = {
        facts.lemma_cardinality();
        universe::lemma_finite_set_size_bound(facts@)
    };
    proof {
        universe::lemma_props_upto_finite(bound);
        lemma_closure_bounded(facts@, bound);
        lemma_closure_grows(facts@);
    }
    let mut cur = facts.clone();
    loop
        invariant
            facts.wf(),
            cur.wf(),
            facts@.subset_of(cur@),
            cur@.subset_of(closure(facts@)),
            closure(facts@).subset_of(universe::props_upto(bound)),
            universe::props_upto(bound).finite(),
        ensures
            cur.wf(),
            cur@ == closure(facts@),
        decreases universe::props_upto(bound).len() - cur@.len(),
    {
        let n0 = cur.len();
        let next = extend_once(&cur);
        proof {
            cur.lemma_cardinality();
            next.lemma_cardinality();
            vstd::set_lib::lemma_len_subset(cur@, universe::props_upto(bound));
            // Every new fact is one more derivation step, hence stays in
            // the closure.
            assert forall|q: Proposition| next@.contains(q)
                implies closure(facts@).contains(q) by {
                if !cur@.contains(q) {
                    let p = choose|p: Proposition| cur@.contains(p) && #[trigger] derivable(p, q);
                    lemma_closure_closed(facts@);
                }
            }
            vstd::set_lib::lemma_len_subset(next@, universe::props_upto(bound));
        }
        if next.len() == n0 {
            proof {
                vstd::set_lib::lemma_len_subset(cur@, next@);
                vstd::set_lib::lemma_subset_equality(cur@, next@);
                // The pass added nothing, so the set is closed, and a
                // closed superset of the inputs contains the closure.
                assert(closed(cur@));
                lemma_closure_least(facts@, cur@);
                assert(cur@ =~= closure(facts@));
            }
            return cur;
        }
        proof {
            vstd::set_lib::lemma_len_subset(cur@, next@);
            if cur@.len() == next@.len() {
                vstd::set_lib::lemma_subset_equality(cur@, next@);
                assert(false);
            }
        }
        cur = next;
    }
}

} // verus!

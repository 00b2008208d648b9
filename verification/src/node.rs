//! Proof states: a base premise set plus a stack of nested hypotheses
//! (innermost on top), with a layered-scope visibility model, the join
//! step that conjoins the innermost assumption with every enclosing
//! fact, and the deduce step that saturates the active level.

use vstd::prelude::*;

use crate::closure::{closure, saturate};
use crate::facts::Facts;
use crate::prop::{spec_and, Proposition};
use crate::rules;

verus! {

/// One nested case-assumption level: the assumption and the facts
/// derived at this level (initially just the assumption itself).
pub struct Hypothesis {
    pub assumption: Proposition,
    pub conclusions: Facts,
}

impl Hypothesis {
    /// Opens a fresh hypothesis level holding exactly its assumption.
    pub fn from_assumption(assumption: Proposition) -> (h: Hypothesis)
        ensures
            h.assumption == assumption,
            h.conclusions@ == Set::<Proposition>::empty().insert(assumption),
            h.conclusions.wf(),
    {
        let mut conclusions = Facts::new();
        let a = assumption.clone();
        conclusions.insert(assumption);
        Hypothesis { assumption: a, conclusions }
    }
}

/// A search state: base premises plus the ordered stack of hypotheses.
pub struct SearchNode {
    pub premises: Facts,
    pub assumptions: Vec<Hypothesis>,
}

/// Every conjunction of `a` with a fact of `s`, canonically ordered.
pub open spec fn joined(a: Proposition, s: Set<Proposition>) -> Set<Proposition> {
    Set::new(|q: Proposition| exists|f: Proposition| #[trigger] s.contains(f) && q == spec_and(a, f))
}

impl SearchNode {
    /// The nesting depth: how many hypotheses are open.
    pub open spec fn depth(&self) -> int {
        self.assumptions@.len() as int
    }

    /// The fact set of hypothesis level `i`.
    pub open spec fn level(&self, i: int) -> Set<Proposition> {
        self.assumptions@[i].conclusions@
    }

    /// Everything visible from below level `k`: the premises plus every
    /// hypothesis level strictly under `k`.
    pub open spec fn visible_upto(&self, k: int) -> Set<Proposition> {
        Set::new(
            |p: Proposition|
                self.premises@.contains(p) || exists|i: int|
                    0 <= i < k && #[trigger] self.assumptions@[i].conclusions@.contains(p),
        )
    }

    /// Everything known anywhere in this state.
    pub open spec fn all_known(&self) -> Set<Proposition> {
        self.visible_upto(self.depth())
    }

    /// The active fact set: the innermost hypothesis level, or the
    /// premises when no hypothesis is open.
    pub open spec fn active(&self) -> Set<Proposition> {
        if self.depth() == 0 {
            self.premises@
        } else {
            self.level(self.depth() - 1)
        }
    }

    /// Well-formedness: every stored fact set is deduplicated.
    pub open spec fn wf(&self) -> bool {
        &&& self.premises.wf()
        &&& forall|i: int|
            0 <= i < self.depth() ==> (#[trigger] self.assumptions@[i].conclusions).wf()
    }

    /// The active fact set, by reference.
    pub fn last(&self) -> (r: &Facts)
        ensures
            r@ == self.active(),
            self.depth() == 0 ==> *r == self.premises,
            self.depth() > 0 ==> *r == self.assumptions@[self.depth() - 1].conclusions,
    {
        let n = self.assumptions.len();
        if n == 0 {
            &self.premises
        } else {
            &self.assumptions[n - 1].conclusions
        }
    }

    /// The active fact set, by mutable reference: the innermost
    /// hypothesis level, or the premises when no hypothesis is open.
    pub fn last_mut(&mut self) -> (r: &mut Facts)
        ensures
            *r == (if old(self).depth() == 0 {
                old(self).premises
            } else {
                old(self).assumptions@[old(self).depth() - 1].conclusions
            }),
            old(self).depth() == 0 ==> final(self).premises == *final(r)
                && final(self).assumptions@ == old(self).assumptions@,
            old(self).depth() > 0 ==> final(self).premises == old(self).premises
                && final(self).assumptions@ == old(self).assumptions@.update(
                old(self).depth() - 1,
                (Hypothesis {
                    assumption: old(self).assumptions@[old(self).depth() - 1].assumption,
                    conclusions: *final(r),
                }),
            ),
    {
        let n = self.assumptions.len();
        if n == 0 {
            &mut self.premises
        } else {
            &mut self.assumptions[n - 1].conclusions
        }
    }

    /// Is the proposition known at any scope of this state?
    pub fn contains(&self, prop: &Proposition) -> (r: bool)
        ensures
            r == self.all_known().contains(*prop),
    {
        if self.premises.contains(prop) {
            return true;
        }
        let n = self.assumptions.len();
        for i in 0..n
            invariant
                n == self.assumptions@.len(),
                !self.premises@.contains(*prop),
                forall|j: int|
                    0 <= j < i ==> !(#[trigger] self.assumptions@[j].conclusions@.contains(*prop)),
        {
            if self.assumptions[i].conclusions.contains(prop) {
                return true;
            }
        }
        false
    }

    /// Is the proposition known at any scope other than the innermost
    /// hypothesis level? False whenever no hypothesis is open.
    pub fn contains_except_last(&self, prop: &Proposition) -> (r: bool)
        ensures
            self.depth() == 0 ==> r == false,
            self.depth() > 0 ==> r == self.visible_upto(self.depth() - 1).contains(*prop),
    {
        let n = self.assumptions.len();
        if n == 0 {
            return false;
        }
        if self.premises.contains(prop) {
            return true;
        }
        for i in 0..n - 1
            invariant
                n == self.assumptions@.len(),
                n >= 1,
                !self.premises@.contains(*prop),
                forall|j: int|
                    0 <= j < i ==> !(#[trigger] self.assumptions@[j].conclusions@.contains(*prop)),
        {
            if self.assumptions[i].conclusions.contains(prop) {
                return true;
            }
        }
        false
    }
}

impl Clone for Hypothesis {
    /// A cloned hypothesis carries the same assumption and facts.
    fn clone(&self) -> (r: Self)
        ensures
            r.assumption == self.assumption,
            r.conclusions.sq() == self.conclusions.sq(),
            r.conclusions@ == self.conclusions@,
            r.conclusions.wf() == self.conclusions.wf(),
    {
        Hypothesis { assumption: self.assumption.clone(), conclusions: self.conclusions.clone() }
    }
}

impl Clone for SearchNode {
    /// A cloned node is a fully independent copy with the same premises
    /// and the same hypothesis stack.
    fn clone(&self) -> (r: Self)
        ensures
            r.premises.sq() == self.premises.sq(),
            r.depth() == self.depth(),
            forall|i: int|
                0 <= i < self.depth() ==> #[trigger] r.assumptions@[i].assumption
                    == self.assumptions@[i].assumption && r.assumptions@[i].conclusions.sq()
                    == self.assumptions@[i].conclusions.sq(),
            self.wf() ==> r.wf(),
    {
        let mut assumptions: Vec<Hypothesis> = Vec::new();
        let n = self.assumptions.len();
        for i in 0..n
            invariant
                n == self.assumptions@.len(),
                assumptions@.len() == i,
                forall|j: int|
                    0 <= j < i ==> #[trigger] assumptions@[j].assumption
                        == self.assumptions@[j].assumption && assumptions@[j].conclusions.sq()
                        == self.assumptions@[j].conclusions.sq(),
        {
            assumptions.push(self.assumptions[i].clone());
        }
        let r = SearchNode { premises: self.premises.clone(), assumptions };
        proof {
            if self.wf() {
                assert forall|i: int| 0 <= i < r.depth() implies (
                #[trigger] r.assumptions@[i].conclusions).wf() by {
                    assert(r.assumptions@[i].assumption == self.assumptions@[i].assumption);
                    assert(self.assumptions@[i].conclusions.wf());
                    assert(r.assumptions@[i].conclusions.sq()
                        == self.assumptions@[i].conclusions.sq());
                }
            }
        }
        r
    }
}

/// Membership in a sequence after a push: the new element, or an old one.
pub proof fn lemma_push_contains<T>(s: Seq<T>, x: T, q: T)
    ensures
        s.push(x).contains(q) <==> (s.contains(q) || q == x),
{
    if s.push(x).contains(q) {
        let i = choose|i: int| 0 <= i < s.push(x).len() && s.push(x)[i] == q;
        if i < s.len() {
            assert(s[i] == q);
        }
    }
    if s.contains(q) {
        let i = choose|i: int| 0 <= i < s.len() && s[i] == q;
        assert(s.push(x)[i] == q);
    }
    assert(s.push(x)[s.len() as int] == x);
}

/// Converting one more sequence element to a set is one insertion.
pub proof fn lemma_take_to_set_step<T>(s: Seq<T>, i: int)
    requires
        0 <= i < s.len(),
    ensures
        s.take(i + 1).to_set() == s.take(i).to_set().insert(s[i]),
{
    assert(s.take(i + 1) =~= s.take(i).push(s[i]));
    assert forall|q: T|
        s.take(i + 1).to_set().contains(q) <==> s.take(i).to_set().insert(s[i]).contains(q) by {
        lemma_push_contains(s.take(i), s[i], q);
    }
    assert(s.take(i + 1).to_set() =~= s.take(i).to_set().insert(s[i]));
}

/// Conjoining with one more fact adds exactly one conjunction.
pub proof fn lemma_joined_insert(a: Proposition, s: Set<Proposition>, f: Proposition)
    ensures
        joined(a, s.insert(f)) == joined(a, s).insert(spec_and(a, f)),
{
    assert forall|q: Proposition| joined(a, s.insert(f)).contains(q) implies joined(
        a,
        s,
    ).insert(spec_and(a, f)).contains(q) by {
        let g = choose|g: Proposition| #[trigger] s.insert(f).contains(g) && q == spec_and(a, g);
        if g != f {
            assert(s.contains(g));
            assert(joined(a, s).contains(q));
        }
    }
    assert forall|q: Proposition| joined(a, s).insert(spec_and(a, f)).contains(q) implies joined(
        a,
        s.insert(f),
    ).contains(q) by {
        if joined(a, s).contains(q) {
            let g = choose|g: Proposition| #[trigger] s.contains(g) && q == spec_and(a, g);
            assert(s.insert(f).contains(g));
        } else {
            assert(q == spec_and(a, f));
            assert(s.insert(f).contains(f));
        }
    }
    assert(joined(a, s.insert(f)) =~= joined(a, s).insert(spec_and(a, f)));
}

/// Collects every fact visible from below level `k` into one vector.
fn collect_visible(node: &SearchNode, k: usize) -> (r: Vec<Proposition>)
    requires
        k <= node.depth(),
    ensures
        forall|q: Proposition| r@.contains(q) <==> node.visible_upto(k as int).contains(q),
{
    let mut r = node.premises.to_vec();
    proof {
        assert(forall|q: Proposition| r@.contains(q) <==> node.premises@.contains(q));
    }
    for i in 0..k
        invariant
            k <= node.assumptions@.len(),
            forall|q: Proposition|
                r@.contains(q) <==> node.visible_upto(i as int).contains(q),
    {
        let level = &node.assumptions[i].conclusions;
        let m = level.len();
        for j in 0..m
            invariant
                i < k <= node.assumptions@.len(),
                m == level.sq().len(),
                *level == node.assumptions@[i as int].conclusions,
                forall|q: Proposition|
                    r@.contains(q) <==> (node.visible_upto(i as int).contains(q)
                        || level.sq().take(j as int).contains(q)),
        {
            let ghost r_old = r@;
            r.push(level.get(j).clone());
            proof {
                assert forall|q: Proposition|
                    r@.contains(q) <==> (node.visible_upto(i as int).contains(q)
                        || level.sq().take(j + 1).contains(q)) by {
                    lemma_push_contains(r_old, level.sq()[j as int], q);
                    assert(level.sq().take(j + 1) =~= level.sq().take(j as int).push(
                        level.sq()[j as int],
                    ));
                    lemma_push_contains(level.sq().take(j as int), level.sq()[j as int], q);
                }
            }
        }
        proof {
            assert(level.sq().take(m as int) =~= level.sq());
            assert forall|q: Proposition|
                r@.contains(q) <==> node.visible_upto(i + 1).contains(q) by {
                if node.visible_upto(i + 1).contains(q) && !node.visible_upto(i as int).contains(
                    q,
                ) {
                    let ii = choose|ii: int|
                        0 <= ii < i + 1 && #[trigger] node.assumptions@[ii].conclusions@.contains(
                            q,
                        );
                    assert(ii == i);
                    assert(level.sq().contains(q));
                }
                if level.sq().contains(q) {
                    assert(node.assumptions@[i as int].conclusions@.contains(q));
                }
            }
        }
    }
    r
}

/// The join step: for the innermost hypothesis, conjoin its assumption
/// with every fact known at any enclosing scope and record each such
/// conjunction at the innermost level. A no-op without an open
/// hypothesis.
pub fn join(node: &mut SearchNode)
    requires
        old(node).wf(),
    ensures
        final(node).wf(),
        final(node).depth() == old(node).depth(),
        final(node).premises == old(node).premises,
        forall|i: int|
            0 <= i < old(node).depth() - 1 ==> #[trigger] final(node).assumptions@[i] == old(
                node,
            ).assumptions@[i],
        old(node).depth() == 0 ==> *final(node) == *old(node),
        old(node).depth() > 0 ==> {
            &&& final(node).assumptions@[final(node).depth() - 1].assumption == old(
                node,
            ).assumptions@[old(node).depth() - 1].assumption
            &&& final(node).active() == old(node).active().union(
                joined(
                    old(node).assumptions@[old(node).depth() - 1].assumption,
                    old(node).visible_upto(old(node).depth() - 1),
                ),
            )
        },
{
    let n = node.assumptions.len();
    if n == 0 {
        return ;
    }
    let outer = collect_visible(node, n - 1);
    let mut h = node.assumptions.remove(n - 1);
    let ghost a = h.assumption;
    let ghost base = h.conclusions@;
    let ghost vis = old(node).visible_upto(n - 1 as int);
    let m = outer.len();
    proof {
        assert(outer@.take(0).to_set() =~= Set::<Proposition>::empty());
        assert(joined(a, Set::<Proposition>::empty()) =~= Set::<Proposition>::empty());
        assert(h.conclusions@ =~= base.union(joined(a, outer@.take(0).to_set())));
    }
    for i in 0..m
        invariant
            m == outer@.len(),
            h.assumption == a,
            h.conclusions.wf(),
            forall|q: Proposition| outer@.contains(q) <==> vis.contains(q),
            h.conclusions@ == base.union(joined(a, outer@.take(i as int).to_set())),
    {
        let ghost ti = outer@.take(i as int).to_set();
        let conj = crate::prop::and(h.assumption.clone(), outer[i].clone());
        h.conclusions.insert(conj);
        proof {
            lemma_take_to_set_step(outer@, i as int);
            lemma_joined_insert(a, ti, outer@[i as int]);
            assert(h.conclusions@ =~= base.union(joined(a, outer@.take(i + 1).to_set())));
        }
    }
    node.assumptions.push(h);
    proof {
        assert(old(node).assumptions@.remove(n - 1) =~= old(node).assumptions@.take(n - 1));
        assert(outer@.take(m as int) =~= outer@);
        assert(outer@.to_set() =~= vis);
        assert(final(node).active() == base.union(joined(a, vis)));
    }
}

/// The deduce step: saturates the active fact set to its deductive
/// closure, then drops from an innermost hypothesis whatever is already
/// visible from an enclosing scope (those facts come for free there).
pub fn deduce(node: &mut SearchNode)
    requires
        old(node).wf(),
    ensures
        final(node).wf(),
        final(node).depth() == old(node).depth(),
        forall|i: int|
            0 <= i < old(node).depth() - 1 ==> #[trigger] final(node).assumptions@[i] == old(
                node,
            ).assumptions@[i],
        old(node).depth() == 0 ==> {
            &&& final(node).premises@ == closure(old(node).premises@)
            &&& final(node).assumptions@ == old(node).assumptions@
        },
        old(node).depth() > 0 ==> {
            &&& final(node).premises == old(node).premises
            &&& final(node).assumptions@[final(node).depth() - 1].assumption == old(
                node,
            ).assumptions@[old(node).depth() - 1].assumption
            &&& final(node).active() == closure(old(node).active()).difference(
                old(node).visible_upto(old(node).depth() - 1),
            )
        },
{
    let n = node.assumptions.len();
    if n == 0 {
        let saturated = saturate(&node.premises);
        node.premises = saturated;
        return ;
    }
    let mut h = node.assumptions.remove(n - 1);
    let saturated = saturate(&h.conclusions);
    let ghost vis = old(node).visible_upto(n - 1 as int);
    proof {
        assert(node.assumptions@ =~= old(node).assumptions@.take(n - 1));
        assert forall|p: Proposition| node.all_known().contains(p) <==> vis.contains(p) by {
            if node.all_known().contains(p) && !node.premises@.contains(p) {
                let ii = choose|ii: int|
                    0 <= ii < node.depth() && #[trigger] node.assumptions@[ii].conclusions@.contains(
                        p,
                    );
                assert(old(node).assumptions@[ii].conclusions@.contains(p));
            }
            if vis.contains(p) && !node.premises@.contains(p) {
                let ii = choose|ii: int|
                    0 <= ii < n - 1 && #[trigger] old(node).assumptions@[ii].conclusions@.contains(
                        p,
                    );
                assert(node.assumptions@[ii].conclusions@.contains(p));
            }
        }
        assert(node.all_known() =~= vis);
    }
    let mut kept = Facts::new();
    let m = saturated.len();
    proof {
        assert(saturated.sq().take(0).to_set() =~= Set::<Proposition>::empty());
        assert(kept@ =~= saturated.sq().take(0).to_set().difference(vis));
    }
    for i in 0..m
        invariant
            m == saturated.sq().len(),
            saturated.wf(),
            kept.wf(),
            node.depth() == n - 1,
            node.all_known() == vis,
            kept@ == saturated.sq().take(i as int).to_set().difference(vis),
    {
        let q = saturated.get(i);
        let ghost ti = saturated.sq().take(i as int).to_set();
        proof {
            lemma_take_to_set_step(saturated.sq(), i as int);
        }
        if !node.contains(q) {
            kept.insert(q.clone());
            proof {
                assert(kept@ =~= ti.insert(saturated.sq()[i as int]).difference(vis));
            }
        } else {
            proof {
                assert(kept@ =~= ti.insert(saturated.sq()[i as int]).difference(vis));
            }
        }
    }
    h.conclusions = kept;
    node.assumptions.push(h);
    proof {
        assert(old(node).assumptions@.remove(n - 1) =~= old(node).assumptions@.take(n - 1));
        assert(saturated.sq().take(m as int) =~= saturated.sq());
        assert(saturated.sq().to_set() =~= saturated@);
        assert(final(node).active() == closure(old(node).active()).difference(vis));
    }
}

/// Join correctness: an inserted conjunction decomposes, by one
/// conjunction-elimination step each, back to exactly its two operands.
pub proof fn lemma_join_fact_decomposes(a: Proposition, f: Proposition)
    ensures
        rules::derivable(spec_and(a, f), a),
        rules::derivable(spec_and(a, f), f),
{
    assert(rules::rule_and_elim(spec_and(a, f), a));
    assert(rules::rule_and_elim(spec_and(a, f), f));
}

/// Idempotence of the deduce step on a hypothesis level: saturating an
/// already-saturated-and-filtered fact set and filtering again changes
/// nothing.
pub proof fn lemma_deduce_idempotent(s: Set<Proposition>, outer: Set<Proposition>)
    ensures
        closure(closure(s).difference(outer)).difference(outer) == closure(s).difference(outer),
{
    let x = closure(s).difference(outer);
    crate::closure::lemma_closure_grows(x);
    crate::closure::lemma_closure_monotone(x, closure(s));
    crate::closure::lemma_closure_idempotent(s);
    assert(closure(x).difference(outer) =~= x);
}

} // verus!

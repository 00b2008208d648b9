//! The finite universe argument behind termination of the closure
//! operator: a derivation step never grows the node count of a formula,
//! and only finitely many formulas exist below any node-count bound, so
//! a fact set saturated by repeated rule application cannot grow forever.

use vstd::prelude::*;
use vstd::set_lib::{lemma_int_range, lemma_set_subset_finite, set_int_range};

use crate::prop::{spec_and, spec_or, Proposition};
use crate::rules;

verus! {

/// Node count of a formula (every constructor counts one).
pub open spec fn spec_size(p: Proposition) -> nat
    decreases p,
{
    match p {
        Proposition::Variable(_) => 1,
        Proposition::Bottom => 1,
        Proposition::Not(x) => 1 + spec_size(*x),
        Proposition::And(l, r) => 1 + spec_size(*l) + spec_size(*r),
        Proposition::Or(l, r) => 1 + spec_size(*l) + spec_size(*r),
        Proposition::Implies(l, r) => 1 + spec_size(*l) + spec_size(*r),
    }
}

/// Every formula has at least one node.
pub proof fn lemma_size_pos(p: Proposition)
    ensures
        spec_size(p) >= 1,
{
}

/// Canonicalization does not change the node count.
pub proof fn lemma_size_canonical(x: Proposition, y: Proposition)
    ensures
        spec_size(spec_and(x, y)) == 1 + spec_size(x) + spec_size(y),
        spec_size(spec_or(x, y)) == 1 + spec_size(x) + spec_size(y),
{
}

/// No rule of the catalog grows the node count: the conclusion of a
/// one-step derivation is never larger than its input.
pub proof fn lemma_derivable_size(p: Proposition, q: Proposition)
    requires
        rules::derivable(p, q),
    ensures
        spec_size(q) <= spec_size(p),
{
    match p {
        Proposition::And(a, b) => {
            lemma_size_pos(*a);
            lemma_size_pos(*b);
            match *a {
                Proposition::And(x, y) => {
                    assert(spec_size(*a) == 1 + spec_size(*x) + spec_size(*y));
                    lemma_size_canonical(*y, *b);
                    lemma_size_canonical(*x, spec_and(*y, *b));
                    lemma_size_canonical(*x, *y);
                    lemma_size_canonical(spec_and(*x, *y), *b);
                },
                Proposition::Implies(x, y) => {
                    assert(spec_size(*a) == 1 + spec_size(*x) + spec_size(*y));
                    lemma_size_pos(*x);
                    lemma_size_pos(*y);
                },
                Proposition::Not(x) => {
                    assert(spec_size(*a) == 1 + spec_size(*x));
                    lemma_size_pos(*x);
                },
                _ => {},
            }
            match *b {
                Proposition::And(x, y) => {
                    assert(spec_size(*b) == 1 + spec_size(*x) + spec_size(*y));
                    lemma_size_canonical(*a, *x);
                    lemma_size_canonical(spec_and(*a, *x), *y);
                    lemma_size_canonical(*x, *y);
                    lemma_size_canonical(*a, spec_and(*x, *y));
                },
                Proposition::Implies(x, y) => {
                    assert(spec_size(*b) == 1 + spec_size(*x) + spec_size(*y));
                    lemma_size_pos(*x);
                    lemma_size_pos(*y);
                },
                Proposition::Not(x) => {
                    assert(spec_size(*b) == 1 + spec_size(*x));
                    lemma_size_pos(*x);
                },
                _ => {},
            }
        },
        Proposition::Or(a, b) => {
            lemma_size_canonical(*b, *a);
            lemma_size_pos(*a);
            lemma_size_pos(*b);
            match *a {
                Proposition::Or(x, y) => {
                    assert(spec_size(*a) == 1 + spec_size(*x) + spec_size(*y));
                    lemma_size_canonical(*y, *b);
                    lemma_size_canonical(*x, spec_or(*y, *b));
                    lemma_size_canonical(*x, *y);
                    lemma_size_canonical(spec_or(*x, *y), *b);
                },
                _ => {},
            }
            match *b {
                Proposition::Or(x, y) => {
                    assert(spec_size(*b) == 1 + spec_size(*x) + spec_size(*y));
                    lemma_size_canonical(*a, *x);
                    lemma_size_canonical(spec_or(*a, *x), *y);
                    lemma_size_canonical(*x, *y);
                    lemma_size_canonical(*a, spec_or(*x, *y));
                },
                _ => {},
            }
        },
        Proposition::Implies(l, b) => {
            lemma_size_pos(*b);
            lemma_size_pos(*l);
        },
        Proposition::Not(n) => {
            match *n {
                Proposition::Not(x) => {
                    assert(spec_size(*n) == 1 + spec_size(*x));
                },
                _ => {},
            }
        },
        _ => {},
    }
}

/// All formulas of node count at most `b`.
pub open spec fn props_upto(b: nat) -> Set<Proposition> {
    Set::new(|p: Proposition| spec_size(p) <= b)
}

/// Only finitely many formulas exist below any node-count bound: the
/// atoms are drawn from a finite alphabet and every operand of a bounded
/// formula is strictly smaller.
pub proof fn lemma_props_upto_finite(b: nat)
    ensures
        props_upto(b).finite(),
    decreases b,
{
    broadcast use vstd::set_lib::lemma_set_union_finite_iff;
    broadcast use vstd::set_lib::lemma_set_insert_finite_iff;

    if b == 0 {
        assert forall|p: Proposition| !(#[trigger] props_upto(0).contains(p)) by {
            lemma_size_pos(p);
        }
        assert(props_upto(0) =~= Set::<Proposition>::empty());
    } else {
        let c = (b - 1) as nat;
        lemma_props_upto_finite(c);
        let s = props_upto(c);
        let vars = set_int_range(0, 256).map(|i: int| Proposition::Variable(i as u8));
        let base = vars.insert(Proposition::Bottom);
        let nots = s.map(|x: Proposition| Proposition::Not(Box::new(x)));
        let ands = s.map(
            |l: Proposition| s.map(|r: Proposition| Proposition::And(Box::new(l), Box::new(r))),
        ).flatten();
        let ors = s.map(
            |l: Proposition| s.map(|r: Proposition| Proposition::Or(Box::new(l), Box::new(r))),
        ).flatten();
        let imps = s.map(
            |l: Proposition| s.map(|r: Proposition| Proposition::Implies(Box::new(l), Box::new(r))),
        ).flatten();
        let all = base.union(nots).union(ands).union(ors).union(imps);
        lemma_int_range(0, 256);
        set_int_range(0, 256).lemma_map_finite(|i: int| Proposition::Variable(i as u8));
        s.lemma_map_finite(|x: Proposition| Proposition::Not(Box::new(x)));
        lemma_and_pairs_finite(s);
        lemma_or_pairs_finite(s);
        lemma_implies_pairs_finite(s);
        assert(vars.finite());
        assert(base.finite());
        vstd::set_lib::lemma_set_union_finite_iff(base, nots);
        vstd::set_lib::lemma_set_union_finite_iff(base.union(nots), ands);
        vstd::set_lib::lemma_set_union_finite_iff(base.union(nots).union(ands), ors);
        vstd::set_lib::lemma_set_union_finite_iff(base.union(nots).union(ands).union(ors), imps);
        assert(all.finite());
        assert forall|p: Proposition| props_upto(b).contains(p) implies all.contains(p) by {
            lemma_bounded_in_cover(b, p);
        }
        lemma_set_subset_finite(all, props_upto(b));
    }
}

/// Helper: the conjunctions over all pairs from a finite set form a
/// finite set.
proof fn lemma_and_pairs_finite(s: Set<Proposition>)
    requires
        s.finite(),
    ensures
        s.map(
            |l: Proposition| s.map(|r: Proposition| Proposition::And(Box::new(l), Box::new(r))),
        ).flatten().finite(),
{
    let outer = s.map(
        |l: Proposition| s.map(|r: Proposition| Proposition::And(Box::new(l), Box::new(r))),
    );
    s.lemma_map_finite(
        |l: Proposition| s.map(|r: Proposition| Proposition::And(Box::new(l), Box::new(r))),
    );
    assert forall|ss: Set<Proposition>| outer.contains(ss) implies #[trigger] ss.finite() by {
        let l = choose|l: Proposition|
            s.contains(l) && s.map(
                |r: Proposition| Proposition::And(Box::new(l), Box::new(r)),
            ) == ss;
        s.lemma_map_finite(|r: Proposition| Proposition::And(Box::new(l), Box::new(r)));
    }
    outer.lemma_flatten_finite();
}

/// Helper: the disjunctions over all pairs from a finite set form a
/// finite set.
proof fn lemma_or_pairs_finite(s: Set<Proposition>)
    requires
        s.finite(),
    ensures
        s.map(
            |l: Proposition| s.map(|r: Proposition| Proposition::Or(Box::new(l), Box::new(r))),
        ).flatten().finite(),
{
    let outer = s.map(
        |l: Proposition| s.map(|r: Proposition| Proposition::Or(Box::new(l), Box::new(r))),
    );
    s.lemma_map_finite(
        |l: Proposition| s.map(|r: Proposition| Proposition::Or(Box::new(l), Box::new(r))),
    );
    assert forall|ss: Set<Proposition>| outer.contains(ss) implies #[trigger] ss.finite() by {
        let l = choose|l: Proposition|
            s.contains(l) && s.map(
                |r: Proposition| Proposition::Or(Box::new(l), Box::new(r)),
            ) == ss;
        s.lemma_map_finite(|r: Proposition| Proposition::Or(Box::new(l), Box::new(r)));
    }
    outer.lemma_flatten_finite();
}

/// Helper: the implications over all pairs from a finite set form a
/// finite set.
proof fn lemma_implies_pairs_finite(s: Set<Proposition>)
    requires
        s.finite(),
    ensures
        s.map(
            |l: Proposition| s.map(|r: Proposition| Proposition::Implies(Box::new(l), Box::new(r))),
        ).flatten().finite(),
{
    let outer = s.map(
        |l: Proposition| s.map(|r: Proposition| Proposition::Implies(Box::new(l), Box::new(r))),
    );
    s.lemma_map_finite(
        |l: Proposition| s.map(|r: Proposition| Proposition::Implies(Box::new(l), Box::new(r))),
    );
    assert forall|ss: Set<Proposition>| outer.contains(ss) implies #[trigger] ss.finite() by {
        let l = choose|l: Proposition|
            s.contains(l) && s.map(
                |r: Proposition| Proposition::Implies(Box::new(l), Box::new(r)),
            ) == ss;
        s.lemma_map_finite(|r: Proposition| Proposition::Implies(Box::new(l), Box::new(r)));
    }
    outer.lemma_flatten_finite();
}

/// Helper: a formula of node count at most `b` lies in the cover built
/// from formulas of node count at most `b - 1`.
proof fn lemma_bounded_in_cover(b: nat, p: Proposition)
    requires
        b >= 1,
        spec_size(p) <= b,
    ensures
        ({
            let c = (b - 1) as nat;
            let s = props_upto(c);
            let vars = set_int_range(0, 256).map(|i: int| Proposition::Variable(i as u8));
            let base = vars.insert(Proposition::Bottom);
            let nots = s.map(|x: Proposition| Proposition::Not(Box::new(x)));
            let ands = s.map(
                |l: Proposition| s.map(|r: Proposition| Proposition::And(Box::new(l), Box::new(r))),
            ).flatten();
            let ors = s.map(
                |l: Proposition| s.map(|r: Proposition| Proposition::Or(Box::new(l), Box::new(r))),
            ).flatten();
            let imps = s.map(
                |l: Proposition| s.map(
                    |r: Proposition| Proposition::Implies(Box::new(l), Box::new(r)),
                ),
            ).flatten();
            base.union(nots).union(ands).union(ors).union(imps).contains(p)
        }),
{
    let c = (b - 1) as nat;
    let s = props_upto(c);
    let vars = set_int_range(0, 256).map(|i: int| Proposition::Variable(i as u8));
    match p {
        Proposition::Variable(v) => {
            assert(set_int_range(0, 256).contains(v as int));
            assert(vars.contains(p));
        },
        Proposition::Bottom => {},
        Proposition::Not(x) => {
            assert(s.contains(*x));
            assert(s.map(|x: Proposition| Proposition::Not(Box::new(x))).contains(p));
        },
        Proposition::And(l, r) => {
            lemma_size_pos(*l);
            lemma_size_pos(*r);
            assert(s.contains(*l) && s.contains(*r));
            let inner = s.map(|r2: Proposition| Proposition::And(Box::new(*l), Box::new(r2)));
            let outer = s.map(
                |l2: Proposition| s.map(|r2: Proposition| Proposition::And(Box::new(l2), Box::new(r2))),
            );
            assert(outer.contains(inner));
            assert(inner.contains(p));
            assert(outer.flatten().contains(p));
        },
        Proposition::Or(l, r) => {
            lemma_size_pos(*l);
            lemma_size_pos(*r);
            assert(s.contains(*l) && s.contains(*r));
            let inner = s.map(|r2: Proposition| Proposition::Or(Box::new(*l), Box::new(r2)));
            let outer = s.map(
                |l2: Proposition| s.map(|r2: Proposition| Proposition::Or(Box::new(l2), Box::new(r2))),
            );
            assert(outer.contains(inner));
            assert(inner.contains(p));
            assert(outer.flatten().contains(p));
        },
        Proposition::Implies(l, r) => {
            lemma_size_pos(*l);
            lemma_size_pos(*r);
            assert(s.contains(*l) && s.contains(*r));
            let inner = s.map(|r2: Proposition| Proposition::Implies(Box::new(*l), Box::new(r2)));
            let outer = s.map(
                |l2: Proposition| s.map(
                    |r2: Proposition| Proposition::Implies(Box::new(l2), Box::new(r2)),
                ),
            );
            assert(outer.contains(inner));
            assert(inner.contains(p));
            assert(outer.flatten().contains(p));
        },
    }
}

/// Every finite set of formulas has a node-count bound.
pub proof fn lemma_finite_set_size_bound(s: Set<Proposition>) -> (b: nat)
    requires
        s.finite(),
    ensures
        forall|p: Proposition| s.contains(p) ==> spec_size(p) <= b,
    decreases s.len(),
{
    if s.is_empty() {
        0
    } else {
        let x = s.choose();
        let rest = s.remove(x);
        let b0 = lemma_finite_set_size_bound(rest);
        let b = if spec_size(x) > b0 {
            spec_size(x)
        } else {
            b0
        };
        assert forall|p: Proposition| s.contains(p) implies spec_size(p) <= b by {
            if p != x {
                assert(rest.contains(p));
            }
        }
        b
    }
}

} // verus!

//! The inference-rule catalog: a pure function from one formula to the
//! set of formulas derivable from it in a single step. Each rule is
//! stated as its own predicate; all rules that match an input fire
//! independently, and every result is collected.

use vstd::prelude::*;

use crate::facts::Facts;
use crate::prop::{spec_and, spec_or, Proposition};

verus! {

/// Associativity rebalancing: `(x and y) and z => x and (y and z)`.
pub open spec fn rule_assoc_and_right(p: Proposition, q: Proposition) -> bool {
    &&& p matches Proposition::And(a, z)
    &&& *a matches Proposition::And(x, y)
    &&& q == spec_and(*x, spec_and(*y, *z))
}

/// Associativity rebalancing: `x and (y and z) => (x and y) and z`.
pub open spec fn rule_assoc_and_left(p: Proposition, q: Proposition) -> bool {
    &&& p matches Proposition::And(x, a)
    &&& *a matches Proposition::And(y, z)
    &&& q == spec_and(spec_and(*x, *y), *z)
}

/// Associativity rebalancing: `(x or y) or z => x or (y or z)`.
pub open spec fn rule_assoc_or_right(p: Proposition, q: Proposition) -> bool {
    &&& p matches Proposition::Or(a, z)
    &&& *a matches Proposition::Or(x, y)
    &&& q == spec_or(*x, spec_or(*y, *z))
}

/// Associativity rebalancing: `x or (y or z) => (x or y) or z`.
pub open spec fn rule_assoc_or_left(p: Proposition, q: Proposition) -> bool {
    &&& p matches Proposition::Or(x, a)
    &&& *a matches Proposition::Or(y, z)
    &&& q == spec_or(spec_or(*x, *y), *z)
}

/// Conjunction elimination: both conjuncts are extractable.
pub open spec fn rule_and_elim(p: Proposition, q: Proposition) -> bool {
    &&& p matches Proposition::And(l, r)
    &&& (q == *l || q == *r)
}

/// Disjunction reordering, as an explicit derivation step.
pub open spec fn rule_or_commute(p: Proposition, q: Proposition) -> bool {
    &&& p matches Proposition::Or(l, r)
    &&& q == spec_or(*r, *l)
}

/// Modus ponens: a conjunction pairing `x` with `x implies z`, in either
/// order, yields `z`.
pub open spec fn rule_modus_ponens(p: Proposition, q: Proposition) -> bool {
    ||| {
        &&& p matches Proposition::And(x, i)
        &&& *i matches Proposition::Implies(y, z)
        &&& *x == *y
        &&& q == *z
    }
    ||| {
        &&& p matches Proposition::And(i, x)
        &&& *i matches Proposition::Implies(y, z)
        &&& *x == *y
        &&& q == *z
    }
}

/// Double-negation elimination.
pub open spec fn rule_double_negation(p: Proposition, q: Proposition) -> bool {
    &&& p matches Proposition::Not(n)
    &&& *n matches Proposition::Not(x)
    &&& q == *x
}

/// Proof by contradiction: `x implies bottom` yields `not x`.
pub open spec fn rule_contradiction(p: Proposition, q: Proposition) -> bool {
    &&& p matches Proposition::Implies(l, b)
    &&& *b == Proposition::Bottom
    &&& q == Proposition::Not(l)
}

/// Modus tollens: a conjunction pairing `x implies y` with `not y`, in
/// either order, yields `not x`.
pub open spec fn rule_modus_tollens(p: Proposition, q: Proposition) -> bool {
    ||| {
        &&& p matches Proposition::And(i, n)
        &&& *i matches Proposition::Implies(x, y)
        &&& *n matches Proposition::Not(z)
        &&& *z == *y
        &&& q == Proposition::Not(x)
    }
    ||| {
        &&& p matches Proposition::And(n, i)
        &&& *i matches Proposition::Implies(x, y)
        &&& *n matches Proposition::Not(z)
        &&& *z == *y
        &&& q == Proposition::Not(x)
    }
}

/// Contradiction introduction: a conjunction pairing `x` with `not x`,
/// in either order, yields bottom.
pub open spec fn rule_bottom_intro(p: Proposition, q: Proposition) -> bool {
    ||| {
        &&& p matches Proposition::And(l, n)
        &&& *n matches Proposition::Not(x)
        &&& *l == *x
        &&& q == Proposition::Bottom
    }
    ||| {
        &&& p matches Proposition::And(n, l)
        &&& *n matches Proposition::Not(x)
        &&& *l == *x
        &&& q == Proposition::Bottom
    }
}

/// One step of derivation: `q` follows from `p` by some rule of the
/// catalog.
pub open spec fn derivable(p: Proposition, q: Proposition) -> bool {
    ||| rule_assoc_and_right(p, q)
    ||| rule_assoc_and_left(p, q)
    ||| rule_assoc_or_right(p, q)
    ||| rule_assoc_or_left(p, q)
    ||| rule_and_elim(p, q)
    ||| rule_or_commute(p, q)
    ||| rule_modus_ponens(p, q)
    ||| rule_double_negation(p, q)
    ||| rule_contradiction(p, q)
    ||| rule_modus_tollens(p, q)
    ||| rule_bottom_intro(p, q)
}

/// Checks the input against every rule of the catalog and collects all
/// one-step conclusions.
pub fn single_prop_conclusions(prop: &Proposition) -> (out: Facts)
    ensures
        out.wf(),
        forall|q: Proposition| out@.contains(q) <==> derivable(*prop, q),
{
    let mut out = Facts::new();

    // Rebalancing.
    if let Proposition::And(a, z) = prop {
        if let Proposition::And(x, y) = &**a {
            let inner = Proposition::and((**y).clone(), (**z).clone());
            out.insert(Proposition::and((**x).clone(), inner));
        }
    }
    if let Proposition::And(x, a) = prop {
        if let Proposition::And(y, z) = &**a {
            let inner = Proposition::and((**x).clone(), (**y).clone());
            out.insert(Proposition::and(inner, (**z).clone()));
        }
    }
    if let Proposition::Or(a, z) = prop {
        if let Proposition::Or(x, y) = &**a {
            let inner = Proposition::or((**y).clone(), (**z).clone());
            out.insert(Proposition::or((**x).clone(), inner));
        }
    }
    if let Proposition::Or(x, a) = prop {
        if let Proposition::Or(y, z) = &**a {
            let inner = Proposition::or((**x).clone(), (**y).clone());
            out.insert(Proposition::or(inner, (**z).clone()));
        }
    }
    // Conjunction elimination.
    if let Proposition::And(l, r) = prop {
        out.insert((**l).clone());
        out.insert((**r).clone());
    }
    // Disjunction reordering.
    if let Proposition::Or(l, r) = prop {
        out.insert(Proposition::or((**r).clone(), (**l).clone()));
    }
    // Modus ponens.
    if let Proposition::And(x, i) = prop {
        if let Proposition::Implies(y, z) = &**i {
            if crate::prop::eq_prop(&**x, &**y) {
                out.insert((**z).clone());
            }
        }
    }
    if let Proposition::And(i, x) = prop {
        if let Proposition::Implies(y, z) = &**i {
            if crate::prop::eq_prop(&**x, &**y) {
                out.insert((**z).clone());
            }
        }
    }
    // Double-negation elimination.
    if let Proposition::Not(n) = prop {
        if let Proposition::Not(x) = &**n {
            out.insert((**x).clone());
        }
    }
    // Proof by contradiction.
    if let Proposition::Implies(l, b) = prop {
        if let Proposition::Bottom = &**b {
            out.insert(Proposition::Not(Box::new((**l).clone())));
        }
    }
    // Modus tollens.
    if let Proposition::And(i, n) = prop {
        if let Proposition::Implies(x, y) = &**i {
            if let Proposition::Not(z) = &**n {
                if crate::prop::eq_prop(&**z, &**y) {
                    out.insert(Proposition::Not(Box::new((**x).clone())));
                }
            }
        }
    }
    if let Proposition::And(n, i) = prop {
        if let Proposition::Implies(x, y) = &**i {
            if let Proposition::Not(z) = &**n {
                if crate::prop::eq_prop(&**z, &**y) {
                    out.insert(Proposition::Not(Box::new((**x).clone())));
                }
            }
        }
    }
    // Contradiction introduction.
    if let Proposition::And(l, n) = prop {
        if let Proposition::Not(x) = &**n {
            if crate::prop::eq_prop(&**l, &**x) {
                out.insert(Proposition::Bottom);
            }
        }
    }
    if let Proposition::And(n, l) = prop {
        if let Proposition::Not(x) = &**n {
            if crate::prop::eq_prop(&**l, &**x) {
                out.insert(Proposition::Bottom);
            }
        }
    }
    out
}

} // verus!

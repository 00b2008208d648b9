//! Classical propositional semantics: truth-table evaluation under an
//! assignment, and the soundness law for the rule catalog — every
//! formula a rule derives is a logical consequence of its input.

use vstd::prelude::*;

use crate::prop::{spec_and, spec_or, Proposition};
use crate::rules;

verus! {

/// Truth-table evaluation. An assignment is the set of variable codes
/// that are true.
pub open spec fn eval(env: Set<u8>, p: Proposition) -> bool
    decreases p,
{
    match p {
        Proposition::Variable(v) => env.contains(v),
        Proposition::And(l, r) => eval(env, *l) && eval(env, *r),
        Proposition::Or(l, r) => eval(env, *l) || eval(env, *r),
        Proposition::Implies(l, r) => eval(env, *l) ==> eval(env, *r),
        Proposition::Not(x) => !eval(env, *x),
        Proposition::Bottom => false,
    }
}

/// `q` is a logical consequence of `p`: true under every assignment
/// that makes `p` true.
pub open spec fn consequence(p: Proposition, q: Proposition) -> bool {
    forall|env: Set<u8>| eval(env, p) ==> eval(env, q)
}

/// Every proposition of `s` holds under the assignment `env`.
pub open spec fn all_hold(env: Set<u8>, s: Set<Proposition>) -> bool {
    forall|p: Proposition| s.contains(p) ==> eval(env, p)
}

/// `q` holds under every assignment that makes all of `s` hold: `q` is
/// a classical semantic consequence of the set `s`.
pub open spec fn entails(s: Set<Proposition>, q: Proposition) -> bool {
    forall|env: Set<u8>| all_hold(env, s) ==> eval(env, q)
}

/// Entailment survives enlarging the context.
pub proof fn lemma_entails_weaken(c1: Set<Proposition>, c2: Set<Proposition>, q: Proposition)
    requires
        entails(c1, q),
        c1.subset_of(c2),
    ensures
        entails(c2, q),
{
    assert forall|env: Set<u8>| all_hold(env, c2) implies eval(env, q) by {
        assert(all_hold(env, c1));
    }
}

/// The canonical conjunction evaluates as the conjunction, whichever
/// operand ends up on the left.
pub proof fn lemma_eval_and(env: Set<u8>, x: Proposition, y: Proposition)
    ensures
        eval(env, spec_and(x, y)) == (eval(env, x) && eval(env, y)),
{
}

/// The canonical disjunction evaluates as the disjunction, whichever
/// operand ends up on the left.
pub proof fn lemma_eval_or(env: Set<u8>, x: Proposition, y: Proposition)
    ensures
        eval(env, spec_or(x, y)) == (eval(env, x) || eval(env, y)),
{
}

/// Soundness of the rule catalog: for every well-formed input matching
/// some rule, the produced formula is a logical consequence of the input
/// under classical propositional semantics.
pub proof fn lemma_rules_sound(p: Proposition, q: Proposition)
    requires
        rules::derivable(p, q),
    ensures
        consequence(p, q),
{
    assert forall|env: Set<u8>| eval(env, p) implies eval(env, q) by {
        lemma_one_step_sound(env, p, q);
    }
}

/// Soundness of one derivation step under one assignment.
proof fn lemma_one_step_sound(env: Set<u8>, p: Proposition, q: Proposition)
    requires
        rules::derivable(p, q),
        eval(env, p),
    ensures
        eval(env, q),
{
    if rules::rule_assoc_and_right(p, q) {
        match p {
            Proposition::And(a, z) => match *a {
                Proposition::And(x, y) => {
                    assert(eval(env, *a) == (eval(env, *x) && eval(env, *y)));
                    lemma_eval_and(env, *y, *z);
                    lemma_eval_and(env, *x, spec_and(*y, *z));
                },
                _ => {},
            },
            _ => {},
        }
    }
    if rules::rule_assoc_and_left(p, q) {
        match p {
            Proposition::And(x, a) => match *a {
                Proposition::And(y, z) => {
                    assert(eval(env, *a) == (eval(env, *y) && eval(env, *z)));
                    lemma_eval_and(env, *x, *y);
                    lemma_eval_and(env, spec_and(*x, *y), *z);
                },
                _ => {},
            },
            _ => {},
        }
    }
    if rules::rule_assoc_or_right(p, q) {
        match p {
            Proposition::Or(a, z) => match *a {
                Proposition::Or(x, y) => {
                    assert(eval(env, *a) == (eval(env, *x) || eval(env, *y)));
                    lemma_eval_or(env, *y, *z);
                    lemma_eval_or(env, *x, spec_or(*y, *z));
                },
                _ => {},
            },
            _ => {},
        }
    }
    if rules::rule_assoc_or_left(p, q) {
        match p {
            Proposition::Or(x, a) => match *a {
                Proposition::Or(y, z) => {
                    assert(eval(env, *a) == (eval(env, *y) || eval(env, *z)));
                    lemma_eval_or(env, *x, *y);
                    lemma_eval_or(env, spec_or(*x, *y), *z);
                },
                _ => {},
            },
            _ => {},
        }
    }
    if rules::rule_or_commute(p, q) {
        match p {
            Proposition::Or(l, r) => {
                lemma_eval_or(env, *r, *l);
            },
            _ => {},
        }
    }
    if rules::rule_modus_ponens(p, q) {
        match p {
            Proposition::And(a, b) => {
                assert(eval(env, *a) && eval(env, *b));
                match *a {
                    Proposition::Implies(y, z) => {
                        assert(eval(env, *a) == (eval(env, *y) ==> eval(env, *z)));
                    },
                    _ => {},
                }
                match *b {
                    Proposition::Implies(y, z) => {
                        assert(eval(env, *b) == (eval(env, *y) ==> eval(env, *z)));
                    },
                    _ => {},
                }
            },
            _ => {},
        }
    }
    if rules::rule_modus_tollens(p, q) || rules::rule_bottom_intro(p, q) {
        match p {
            Proposition::And(a, b) => {
                assert(eval(env, *a) && eval(env, *b));
                match *a {
                    Proposition::Implies(y, z) => {
                        assert(eval(env, *a) == (eval(env, *y) ==> eval(env, *z)));
                    },
                    Proposition::Not(x) => {
                        assert(eval(env, *a) == !eval(env, *x));
                    },
                    _ => {},
                }
                match *b {
                    Proposition::Implies(y, z) => {
                        assert(eval(env, *b) == (eval(env, *y) ==> eval(env, *z)));
                    },
                    Proposition::Not(x) => {
                        assert(eval(env, *b) == !eval(env, *x));
                    },
                    _ => {},
                }
            },
            _ => {},
        }
    }
    if rules::rule_double_negation(p, q) {
        match p {
            Proposition::Not(n) => {
                assert(eval(env, p) == !eval(env, *n));
                match *n {
                    Proposition::Not(x) => {
                        assert(eval(env, *n) == !eval(env, *x));
                    },
                    _ => {},
                }
            },
            _ => {},
        }
    }
    if rules::rule_contradiction(p, q) {
        match p {
            Proposition::Implies(l, b) => {
                assert(eval(env, p) == (eval(env, *l) ==> eval(env, *b)));
                assert(!eval(env, *b));
            },
            _ => {},
        }
    }
    // Conjunction elimination needs no help: evaluation unfolds directly.
}

} // verus!

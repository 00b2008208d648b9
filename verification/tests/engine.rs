use prover::candidates::{assumption_candidates, conclusion_candidates};
use prover::closure::saturate;
use prover::facts::Facts;
use prover::node::{deduce, join, Hypothesis, SearchNode};
use prover::prop::{and, or, var, Proposition};
use prover::rules::single_prop_conclusions;
use prover::search::{discharge, proof_search, SearchResult};

fn boxed(p: Proposition) -> Box<Proposition> {
    Box::new(p)
}

fn not(p: Proposition) -> Proposition {
    Proposition::Not(boxed(p))
}

fn implies(l: Proposition, r: Proposition) -> Proposition {
    Proposition::Implies(boxed(l), boxed(r))
}

fn facts_of(props: Vec<Proposition>) -> Facts {
    let mut f = Facts::new();
    for p in props {
        f.insert(p);
    }
    f
}

fn same_facts(a: &Facts, b: &Facts) -> bool {
    if a.len() != b.len() {
        return false;
    }
    for p in a.to_vec() {
        if !b.contains(&p) {
            return false;
        }
    }
    true
}

// --- the rule catalog, rule by rule ---

#[test]
fn rule_and_elimination_extracts_both_conjuncts() {
    let out = single_prop_conclusions(&and(var('p'), var('q')));
    assert!(out.contains(&var('p')));
    assert!(out.contains(&var('q')));
}

#[test]
fn rule_associativity_rebalances_conjunctions() {
    let f = Proposition::And(
        boxed(Proposition::And(boxed(var('a')), boxed(var('b')))),
        boxed(var('c')),
    );
    let out = single_prop_conclusions(&f);
    assert!(out.contains(&and(var('a'), and(var('b'), var('c')))));
}

#[test]
fn rule_associativity_rebalances_disjunctions() {
    let f = Proposition::Or(
        boxed(Proposition::Or(boxed(var('a')), boxed(var('b')))),
        boxed(var('c')),
    );
    let out = single_prop_conclusions(&f);
    assert!(out.contains(&or(var('a'), or(var('b'), var('c')))));
}

#[test]
fn rule_or_reordering_yields_the_commuted_form() {
    let f = or(var('p'), var('q'));
    let out = single_prop_conclusions(&f);
    // Canonical ordering collapses the commuted form onto the input.
    assert!(out.contains(&or(var('q'), var('p'))));
}

#[test]
fn rule_modus_ponens_fires_in_either_order() {
    let fwd = and(var('p'), implies(var('p'), var('q')));
    assert!(single_prop_conclusions(&fwd).contains(&var('q')));
    let rev = Proposition::And(boxed(implies(var('p'), var('q'))), boxed(var('p')));
    assert!(single_prop_conclusions(&rev).contains(&var('q')));
}

#[test]
fn rule_double_negation_eliminates() {
    let out = single_prop_conclusions(&not(not(var('p'))));
    assert!(out.contains(&var('p')));
}

#[test]
fn rule_proof_by_contradiction_negates_the_antecedent() {
    let out = single_prop_conclusions(&implies(var('p'), Proposition::Bottom));
    assert!(out.contains(&not(var('p'))));
}

#[test]
fn rule_modus_tollens_negates_the_antecedent() {
    let f = and(implies(var('p'), var('q')), not(var('q')));
    let out = single_prop_conclusions(&f);
    assert!(out.contains(&not(var('p'))));
}

#[test]
fn rule_contradiction_introduction_yields_bottom() {
    let f = and(var('p'), not(var('p')));
    let out = single_prop_conclusions(&f);
    assert!(out.contains(&Proposition::Bottom));
}

#[test]
fn no_rule_fires_on_an_atom() {
    let out = single_prop_conclusions(&var('p'));
    assert!(out.len() == 0);
}

// --- closure ---

#[test]
fn closure_decomposes_nested_conjunctions() {
    let f = facts_of(vec![and(and(var('a'), var('b')), var('c'))]);
    let closed = saturate(&f);
    assert!(closed.contains(&var('a')));
    assert!(closed.contains(&var('b')));
    assert!(closed.contains(&var('c')));
    assert!(closed.contains(&and(var('a'), var('b'))));
}

#[test]
fn closure_is_idempotent() {
    let f = facts_of(vec![
        and(var('p'), implies(var('p'), var('q'))),
        not(not(var('r'))),
        implies(var('s'), Proposition::Bottom),
    ]);
    let once = saturate(&f);
    let twice = saturate(&once);
    assert!(same_facts(&once, &twice));
}

#[test]
fn closure_terminates_on_small_inputs() {
    // Five distinct variables, ten connectives: a regression guard
    // against the rebalancing blow-up risk.
    let f = facts_of(vec![
        and(and(var('a'), var('b')), and(var('c'), var('d'))),
        or(or(var('a'), var('b')), or(var('c'), var('e'))),
        and(var('a'), not(var('a'))),
        not(not(var('b'))),
    ]);
    let closed = saturate(&f);
    assert!(closed.contains(&var('a')));
    assert!(closed.contains(&Proposition::Bottom));
    let again = saturate(&closed);
    assert!(same_facts(&closed, &again));
}

#[test]
fn closure_of_nothing_is_nothing() {
    let closed = saturate(&Facts::new());
    assert!(closed.len() == 0);
}

#[test]
fn no_candidates_from_an_empty_fact_set() {
    assert!(assumption_candidates(&Facts::new()).is_empty());
}

#[test]
fn search_with_no_premises_exhausts() {
    let outcome = proof_search(Facts::new(), &var('q'), 10);
    assert!(matches!(outcome, SearchResult::Exhausted));
}

// --- nodes, join, deduce ---

#[test]
fn join_conjoins_the_assumption_with_every_outer_fact() {
    let premises = facts_of(vec![var('p'), implies(var('p'), var('q'))]);
    let mut node = SearchNode {
        premises,
        assumptions: vec![Hypothesis::from_assumption(not(var('q')))],
    };
    join(&mut node);
    let level = node.last();
    assert!(level.contains(&and(not(var('q')), var('p'))));
    assert!(level.contains(&and(not(var('q')), implies(var('p'), var('q')))));
}

#[test]
fn join_products_decompose_back_to_their_operands() {
    let conj = and(not(var('q')), var('p'));
    let out = single_prop_conclusions(&conj);
    assert!(out.contains(&not(var('q'))));
    assert!(out.contains(&var('p')));
    assert!(out.len() == 2);
}

#[test]
fn deduce_saturates_the_premises() {
    let premises = facts_of(vec![and(var('p'), implies(var('p'), var('q')))]);
    let mut node = SearchNode { premises, assumptions: Vec::new() };
    deduce(&mut node);
    assert!(node.premises.contains(&var('q')));
    assert!(node.premises.contains(&var('p')));
}

#[test]
fn deduce_drops_facts_already_visible_outside() {
    let premises = facts_of(vec![var('p')]);
    let mut node = SearchNode {
        premises,
        assumptions: vec![Hypothesis::from_assumption(and(var('p'), var('q')))],
    };
    deduce(&mut node);
    let level = node.last();
    // The conjuncts are derived, but p is already a premise.
    assert!(level.contains(&var('q')));
    assert!(!level.contains(&var('p')));
    assert!(node.premises.contains(&var('p')));
}

#[test]
fn node_scope_queries_search_every_level() {
    let premises = facts_of(vec![var('p')]);
    let node = SearchNode {
        premises,
        assumptions: vec![
            Hypothesis::from_assumption(var('q')),
            Hypothesis::from_assumption(var('r')),
        ],
    };
    assert!(node.contains(&var('p')));
    assert!(node.contains(&var('q')));
    assert!(node.contains(&var('r')));
    assert!(!node.contains(&var('s')));
    assert!(node.contains_except_last(&var('q')));
    assert!(!node.contains_except_last(&var('r')));
}

#[test]
fn last_mut_reaches_the_active_level() {
    let mut node = SearchNode { premises: facts_of(vec![var('p')]), assumptions: Vec::new() };
    node.last_mut().insert(var('q'));
    assert!(node.premises.contains(&var('q')));
    node.assumptions.push(Hypothesis::from_assumption(var('r')));
    node.last_mut().insert(var('s'));
    assert!(node.assumptions[0].conclusions.contains(&var('s')));
    assert!(!node.premises.contains(&var('s')));
}

// --- candidate generation ---

#[test]
fn assumption_candidates_are_new_subformulas_simplest_first() {
    let facts = facts_of(vec![implies(var('p'), and(var('q'), var('r')))]);
    let cands = assumption_candidates(&facts);
    // p, q, r, then the conjunction; the held fact itself is excluded.
    assert!(cands.len() == 4);
    assert!(cands[3] == and(var('q'), var('r')));
    assert!(cands.contains(&var('p')));
    assert!(cands.contains(&var('q')));
    assert!(cands.contains(&var('r')));
    for w in cands.windows(2) {
        assert!(w[0].len() <= w[1].len());
    }
}

#[test]
fn conclusion_candidates_keep_substantive_consequences_only() {
    let premises = facts_of(vec![implies(var('p'), var('q'))]);
    let mut node = SearchNode {
        premises,
        assumptions: vec![Hypothesis::from_assumption(var('p'))],
    };
    join(&mut node);
    deduce(&mut node);
    let (assumption, cands) = conclusion_candidates(&node).unwrap();
    assert!(assumption == var('p'));
    // q is substantive; the assumption itself and its join products are not.
    assert!(cands.contains(&var('q')));
    assert!(!cands.contains(&var('p')));
    for c in &cands {
        match c {
            Proposition::And(l, r) => {
                assert!(**l != var('p') && **r != var('p'));
            }
            _ => {}
        }
    }
}

#[test]
fn conclusion_candidates_need_an_open_hypothesis() {
    let node = SearchNode { premises: facts_of(vec![var('p')]), assumptions: Vec::new() };
    assert!(conclusion_candidates(&node).is_none());
}

// --- discharge ---

#[test]
fn discharge_inserts_assumption_implies_conclusion() {
    let premises = facts_of(vec![implies(var('p'), var('q'))]);
    let mut node = SearchNode {
        premises,
        assumptions: vec![Hypothesis::from_assumption(var('p'))],
    };
    join(&mut node);
    deduce(&mut node);
    let popped = discharge(&node, &var('q'));
    assert!(popped.premises.contains(&implies(var('p'), var('q'))));
    // Exactly assumption -> conclusion, never the converse.
    assert!(!popped.premises.contains(&implies(var('q'), var('p'))));
}

#[test]
fn discharged_fact_participates_in_modus_ponens() {
    let fact = implies(var('a'), var('c'));
    let supplied = and(var('a'), fact);
    let out = single_prop_conclusions(&supplied);
    assert!(out.contains(&var('c')));
}

// --- the search driver ---

#[test]
fn search_finds_a_target_inside_the_premise_closure() {
    let premises = facts_of(vec![and(var('x'), implies(var('x'), var('z')))]);
    match proof_search(premises, &var('z'), 50) {
        SearchResult::Proved(node) => {
            assert!(node.premises.contains(&var('z')));
        }
        _ => panic!("expected a proof"),
    }
}

#[test]
fn search_finds_a_nested_derivation_through_discharge() {
    // From p -> (q and r), assuming p yields q, so p -> q is derivable
    // by conditional proof.
    let premises = facts_of(vec![implies(var('p'), and(var('q'), var('r')))]);
    let target = implies(var('p'), var('q'));
    match proof_search(premises, &target, 400) {
        SearchResult::Proved(node) => {
            assert!(node.premises.contains(&target));
        }
        _ => panic!("expected a proof"),
    }
}

#[test]
fn search_applies_modus_tollens_at_the_root() {
    let premises = facts_of(vec![and(implies(var('p'), var('q')), not(var('q')))]);
    match proof_search(premises, &not(var('p')), 10) {
        SearchResult::Proved(node) => {
            assert!(node.premises.contains(&not(var('p'))));
        }
        _ => panic!("expected a proof"),
    }
}

#[test]
fn search_eliminates_double_negation_at_the_root() {
    let premises = facts_of(vec![not(not(var('w')))]);
    match proof_search(premises, &var('w'), 10) {
        SearchResult::Proved(_) => {}
        _ => panic!("expected a proof"),
    }
}

#[test]
fn search_exhausts_on_an_unrelated_atom() {
    // Premise p, target q: nothing to assume, nothing to derive.
    let premises = facts_of(vec![var('p')]);
    let outcome = proof_search(premises, &var('q'), 1000);
    assert!(matches!(outcome, SearchResult::Exhausted));
}

#[test]
fn search_scenario_with_disjunctive_premises_stays_sound() {
    // Premises not s -> not r, (p and q) or r, not s -> not q; target
    // not p or s. The catalog has no disjunction introduction or
    // elimination, so no formula with a new disjunction node can ever be
    // derived; the search must end without claiming a proof.
    let premises = facts_of(vec![
        implies(not(var('s')), not(var('r'))),
        or(and(var('p'), var('q')), var('r')),
        implies(not(var('s')), not(var('q'))),
    ]);
    let target = or(not(var('p')), var('s'));
    let outcome = proof_search(premises, &target, 120);
    assert!(!matches!(outcome, SearchResult::Proved(_)));
}

#[test]
fn search_respects_the_visit_budget() {
    let premises = facts_of(vec![implies(var('p'), and(var('q'), var('r')))]);
    let outcome = proof_search(premises, &var('z'), 3);
    assert!(matches!(outcome, SearchResult::OutOfBudget));
}

use prover::prop::{and, or, var, Proposition};

fn boxed(p: Proposition) -> Box<Proposition> {
    Box::new(p)
}

fn not(p: Proposition) -> Proposition {
    Proposition::Not(boxed(p))
}

fn implies(l: Proposition, r: Proposition) -> Proposition {
    Proposition::Implies(boxed(l), boxed(r))
}

#[test]
fn variables_map_letters_to_codes() {
    assert!(var('a') == Proposition::Variable(0));
    assert!(var('p') == Proposition::Variable(15));
    assert!(var('z') == Proposition::Variable(25));
}

#[test]
fn canonical_and_is_order_insensitive() {
    let one = and(var('p'), var('q'));
    let other = and(var('q'), var('p'));
    assert!(one == other);
    // The smaller operand lands on the left.
    assert!(one == Proposition::And(boxed(var('p')), boxed(var('q'))));
}

#[test]
fn canonical_or_is_order_insensitive() {
    let one = or(not(var('p')), var('s'));
    let other = or(var('s'), not(var('p')));
    assert!(one == other);
    // A variable ranks below a negation, so it goes left.
    assert!(one == Proposition::Or(boxed(var('s')), boxed(not(var('p')))));
}

#[test]
fn canonical_and_of_equal_operands() {
    let both = and(var('p'), var('p'));
    assert!(both == Proposition::And(boxed(var('p')), boxed(var('p'))));
}

#[test]
fn size_metric_values() {
    assert!(Proposition::Bottom.len() == 0);
    assert!(var('a').len() == 1);
    assert!(not(var('a')).len() == 2);
    // A double negation is penalized: 3 + the operand.
    assert!(not(not(var('a'))).len() == 4);
    assert!(and(var('a'), var('b')).len() == 3);
    assert!(implies(and(var('a'), var('b')), var('c')).len() == 5);
    assert!(implies(var('a'), Proposition::Bottom).len() == 2);
}

#[test]
fn size_metric_capped_matches_len_on_small_formulas() {
    let f = implies(and(var('a'), var('b')), or(var('c'), var('d')));
    assert!(f.len() == f.len_capped());
}

#[test]
fn structural_equality_distinguishes_shapes() {
    assert!(and(var('p'), var('q')) != or(var('p'), var('q')));
    assert!(implies(var('p'), var('q')) != implies(var('q'), var('p')));
    assert!(not(var('p')) != var('p'));
    assert!(Proposition::Bottom == Proposition::Bottom);
}

#[test]
fn clone_preserves_structure() {
    let f = implies(and(var('a'), not(var('b'))), Proposition::Bottom);
    let g = f.clone();
    assert!(f == g);
}

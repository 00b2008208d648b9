//! The formula tree: propositional formulas over {not, and, or, implies}
//! plus the falsity constant, with a total structural order used to
//! canonicalize the commutative connectives and a size metric used to
//! rank search candidates by simplicity.

use vstd::prelude::*;

verus! {

/// An immutable propositional formula. Commutative connectives built
/// through the smart constructors [`Proposition::and`] / [`Proposition::or`]
/// always carry the structurally smaller operand on the left, so
/// logically identical commuted forms collapse to one representative.
pub enum Proposition {
    /// An atomic proposition, identified by a small integer code
    /// (the letters a..=z map to 0..=25).
    Variable(u8),
    And(Box<Proposition>, Box<Proposition>),
    Or(Box<Proposition>, Box<Proposition>),
    Implies(Box<Proposition>, Box<Proposition>),
    Not(Box<Proposition>),
    /// The falsity constant.
    Bottom,
}

/// Size metric used to rank candidates by simplicity. A double negation
/// is penalized so it is never preferred as a new assumption.
pub open spec fn spec_len(p: Proposition) -> nat
    decreases p,
{
    match p {
        Proposition::Bottom => 0,
        Proposition::Variable(_) => 1,
        Proposition::Not(inner) => match *inner {
            Proposition::Not(x) => 3 + spec_len(*x),
            _ => 1 + spec_len(*inner),
        },
        Proposition::And(left, right) => 1 + spec_len(*left) + spec_len(*right),
        Proposition::Or(left, right) => 1 + spec_len(*left) + spec_len(*right),
        Proposition::Implies(left, right) => 1 + spec_len(*left) + spec_len(*right),
    }
}

/// The size metric, saturated at `usize::MAX`: what the executable
/// ranking computes on formulas too large for exact arithmetic.
pub open spec fn spec_len_capped(p: Proposition) -> nat {
    if spec_len(p) <= usize::MAX {
        spec_len(p)
    } else {
        usize::MAX as nat
    }
}

/// Rank of the outermost connective; the first tie-break of the total order.
pub open spec fn variant_rank(p: Proposition) -> int {
    match p {
        Proposition::Variable(_) => 0,
        Proposition::And(_, _) => 1,
        Proposition::Or(_, _) => 2,
        Proposition::Implies(_, _) => 3,
        Proposition::Not(_) => 4,
        Proposition::Bottom => 5,
    }
}

/// The strict total structural order over formulas: first by the rank of
/// the outermost connective, then by variable code, then lexicographically
/// over the operands. Any consistent deterministic order would do; this
/// one is fully specified so canonical forms are reproducible.
pub open spec fn spec_lt(a: Proposition, b: Proposition) -> bool
    decreases a,
{
    match (a, b) {
        (Proposition::Variable(x), Proposition::Variable(y)) => x < y,
        (Proposition::And(al, ar), Proposition::And(bl, br)) => spec_lt(*al, *bl) || (*al == *bl
            && spec_lt(*ar, *br)),
        (Proposition::Or(al, ar), Proposition::Or(bl, br)) => spec_lt(*al, *bl) || (*al == *bl
            && spec_lt(*ar, *br)),
        (Proposition::Implies(al, ar), Proposition::Implies(bl, br)) => spec_lt(*al, *bl) || (*al
            == *bl && spec_lt(*ar, *br)),
        (Proposition::Not(x), Proposition::Not(y)) => spec_lt(*x, *y),
        _ => variant_rank(a) < variant_rank(b),
    }
}

/// Non-strict companion of [`spec_lt`].
pub open spec fn spec_le(a: Proposition, b: Proposition) -> bool {
    spec_lt(a, b) || a == b
}

/// The canonical conjunction: the smaller operand goes left.
pub open spec fn spec_and(x: Proposition, y: Proposition) -> Proposition {
    if spec_le(x, y) {
        Proposition::And(Box::new(x), Box::new(y))
    } else {
        Proposition::And(Box::new(y), Box::new(x))
    }
}

/// The canonical disjunction: the smaller operand goes left.
pub open spec fn spec_or(x: Proposition, y: Proposition) -> Proposition {
    if spec_le(x, y) {
        Proposition::Or(Box::new(x), Box::new(y))
    } else {
        Proposition::Or(Box::new(y), Box::new(x))
    }
}

/// The order is total: any two formulas are comparable.
pub proof fn lemma_lt_trichotomy(a: Proposition, b: Proposition)
    ensures
        spec_lt(a, b) || spec_lt(b, a) || a == b,
    decreases a,
{
    match (a, b) {
        (Proposition::And(al, ar), Proposition::And(bl, br)) => {
            lemma_lt_trichotomy(*al, *bl);
            lemma_lt_trichotomy(*ar, *br);
        },
        (Proposition::Or(al, ar), Proposition::Or(bl, br)) => {
            lemma_lt_trichotomy(*al, *bl);
            lemma_lt_trichotomy(*ar, *br);
        },
        (Proposition::Implies(al, ar), Proposition::Implies(bl, br)) => {
            lemma_lt_trichotomy(*al, *bl);
            lemma_lt_trichotomy(*ar, *br);
        },
        (Proposition::Not(x), Proposition::Not(y)) => {
            lemma_lt_trichotomy(*x, *y);
        },
        _ => {},
    }
}

/// The order is asymmetric, hence also irreflexive.
pub proof fn lemma_lt_asymmetric(a: Proposition, b: Proposition)
    ensures
        spec_lt(a, b) ==> !spec_lt(b, a) && a != b,
    decreases a,
{
    match (a, b) {
        (Proposition::And(al, ar), Proposition::And(bl, br)) => {
            lemma_lt_asymmetric(*al, *bl);
            lemma_lt_asymmetric(*ar, *br);
        },
        (Proposition::Or(al, ar), Proposition::Or(bl, br)) => {
            lemma_lt_asymmetric(*al, *bl);
            lemma_lt_asymmetric(*ar, *br);
        },
        (Proposition::Implies(al, ar), Proposition::Implies(bl, br)) => {
            lemma_lt_asymmetric(*al, *bl);
            lemma_lt_asymmetric(*ar, *br);
        },
        (Proposition::Not(x), Proposition::Not(y)) => {
            lemma_lt_asymmetric(*x, *y);
        },
        _ => {},
    }
}

/// Canonical-order idempotence for conjunction: constructing with either
/// operand order yields the identical structural result.
pub proof fn lemma_and_commutes(x: Proposition, y: Proposition)
    ensures
        spec_and(x, y) == spec_and(y, x),
{
    lemma_lt_trichotomy(x, y);
    lemma_lt_asymmetric(x, y);
    lemma_lt_asymmetric(y, x);
}

/// Canonical-order idempotence for disjunction.
pub proof fn lemma_or_commutes(x: Proposition, y: Proposition)
    ensures
        spec_or(x, y) == spec_or(y, x),
{
    lemma_lt_trichotomy(x, y);
    lemma_lt_asymmetric(x, y);
    lemma_lt_asymmetric(y, x);
}

/// Structural equality, decided recursively.
pub fn eq_prop(a: &Proposition, b: &Proposition) -> (r: bool)
    ensures
        r == (*a == *b),
    decreases *a,
{
    match (a, b) {
        (Proposition::Variable(x), Proposition::Variable(y)) => *x == *y,
        (Proposition::And(al, ar), Proposition::And(bl, br)) => eq_prop(&**al, &**bl) && eq_prop(
            &**ar,
            &**br,
        ),
        (Proposition::Or(al, ar), Proposition::Or(bl, br)) => eq_prop(&**al, &**bl) && eq_prop(
            &**ar,
            &**br,
        ),
        (Proposition::Implies(al, ar), Proposition::Implies(bl, br)) => eq_prop(&**al, &**bl)
            && eq_prop(&**ar, &**br),
        (Proposition::Not(x), Proposition::Not(y)) => eq_prop(&**x, &**y),
        (Proposition::Bottom, Proposition::Bottom) => true,
        _ => false,
    }
}

/// The strict order, decided recursively.
pub fn lt_prop(a: &Proposition, b: &Proposition) -> (r: bool)
    ensures
        r == spec_lt(*a, *b),
    decreases *a,
{
    match (a, b) {
        (Proposition::Variable(x), Proposition::Variable(y)) => *x < *y,
        (Proposition::And(al, ar), Proposition::And(bl, br)) => lt_prop(&**al, &**bl) || (eq_prop(
            &**al,
            &**bl,
        ) && lt_prop(&**ar, &**br)),
        (Proposition::Or(al, ar), Proposition::Or(bl, br)) => lt_prop(&**al, &**bl) || (eq_prop(
            &**al,
            &**bl,
        ) && lt_prop(&**ar, &**br)),
        (Proposition::Implies(al, ar), Proposition::Implies(bl, br)) => lt_prop(&**al, &**bl) || (
        eq_prop(&**al, &**bl) && lt_prop(&**ar, &**br)),
        (Proposition::Not(x), Proposition::Not(y)) => lt_prop(&**x, &**y),
        (Proposition::Bottom, Proposition::Bottom) => false,
        _ => rank_of(a) < rank_of(b),
    }
}

/// Rank of the outermost connective, executably.
fn rank_of(p: &Proposition) -> (r: u8)
    ensures
        r as int == variant_rank(*p),
{
    match p {
        Proposition::Variable(_) => 0,
        Proposition::And(_, _) => 1,
        Proposition::Or(_, _) => 2,
        Proposition::Implies(_, _) => 3,
        Proposition::Not(_) => 4,
        Proposition::Bottom => 5,
    }
}

impl PartialEq for Proposition {
    fn eq(&self, other: &Self) -> (r: bool) {
        eq_prop(self, other)
    }
}

impl vstd::std_specs::cmp::PartialEqSpecImpl for Proposition {
    open spec fn obeys_eq_spec() -> bool {
        true
    }

    open spec fn eq_spec(&self, other: &Self) -> bool {
        *self == *other
    }
}

impl Clone for Proposition {
    /// A clone is structurally identical to the original.
    fn clone(&self) -> (r: Self)
        ensures
            r == *self,
        decreases *self,
    {
        match self {
            Proposition::Variable(x) => Proposition::Variable(*x),
            Proposition::And(l, x) => Proposition::And(
                Box::new((&**l).clone()),
                Box::new((&**x).clone()),
            ),
            Proposition::Or(l, x) => Proposition::Or(
                Box::new((&**l).clone()),
                Box::new((&**x).clone()),
            ),
            Proposition::Implies(l, x) => Proposition::Implies(
                Box::new((&**l).clone()),
                Box::new((&**x).clone()),
            ),
            Proposition::Not(x) => Proposition::Not(Box::new((&**x).clone())),
            Proposition::Bottom => Proposition::Bottom,
        }
    }
}

impl Proposition {
    /// The canonical conjunction of two formulas: the structurally
    /// smaller operand is placed on the left.
    pub fn and(x: Proposition, y: Proposition) -> (r: Proposition)
        ensures
            r == spec_and(x, y),
    {
        if lt_prop(&x, &y) || eq_prop(&x, &y) {
            Proposition::And(Box::new(x), Box::new(y))
        } else {
            Proposition::And(Box::new(y), Box::new(x))
        }
    }

    /// The canonical disjunction of two formulas: the structurally
    /// smaller operand is placed on the left.
    pub fn or(x: Proposition, y: Proposition) -> (r: Proposition)
        ensures
            r == spec_or(x, y),
    {
        if lt_prop(&x, &y) || eq_prop(&x, &y) {
            Proposition::Or(Box::new(x), Box::new(y))
        } else {
            Proposition::Or(Box::new(y), Box::new(x))
        }
    }

    /// The size metric, exactly.
    pub fn len(&self) -> (r: usize)
        requires
            spec_len(*self) <= usize::MAX,
        ensures
            r == spec_len(*self),
        decreases *self,
    {
        match self {
            Proposition::Bottom => 0,
            Proposition::Variable(_) => 1,
            Proposition::Not(inner) => match &**inner {
                Proposition::Not(x) => 3 + x.len(),
                _ => 1 + inner.len(),
            },
            Proposition::And(left, right) => 1 + left.len() + right.len(),
            Proposition::Or(left, right) => 1 + left.len() + right.len(),
            Proposition::Implies(left, right) => 1 + left.len() + right.len(),
        }
    }

    /// The size metric, saturated at `usize::MAX`; total, so candidate
    /// ranking never needs a bound on formula size.
    pub fn len_capped(&self) -> (r: usize)
        ensures
            r == spec_len_capped(*self),
        decreases *self,
    {
        match self {
            Proposition::Bottom => 0,
            Proposition::Variable(_) => 1,
            Proposition::Not(inner) => match &**inner {
                Proposition::Not(x) => sat_add(3, x.len_capped()),
                _ => sat_add(1, inner.len_capped()),
            },
            Proposition::And(left, right) => sat_add(
                1,
                sat_add(left.len_capped(), right.len_capped()),
            ),
            Proposition::Or(left, right) => sat_add(
                1,
                sat_add(left.len_capped(), right.len_capped()),
            ),
            Proposition::Implies(left, right) => sat_add(
                1,
                sat_add(left.len_capped(), right.len_capped()),
            ),
        }
    }
}

/// Addition on `usize`, saturated at `usize::MAX`.
fn sat_add(a: usize, b: usize) -> (r: usize)
    ensures
        a + b <= usize::MAX ==> r == a + b,
        a + b > usize::MAX ==> r == usize::MAX,
{
    if a > usize::MAX - b {
        usize::MAX
    } else {
        a + b
    }
}

/// The canonical conjunction, as a free function.
pub fn and(x: Proposition, y: Proposition) -> (r: Proposition)
    ensures
        r == spec_and(x, y),
{
    Proposition::and(x, y)
}

/// The canonical disjunction, as a free function.
pub fn or(x: Proposition, y: Proposition) -> (r: Proposition)
    ensures
        r == spec_or(x, y),
{
    Proposition::or(x, y)
}

/// The atomic proposition for a lowercase letter.
pub fn var(c: char) -> (r: Proposition)
    requires
        'a' <= c && c <= 'z',
    ensures
        r == Proposition::Variable((c as u8 - 97) as u8),
{
    Proposition::Variable(c as u8 - 97)
}

} // verus!

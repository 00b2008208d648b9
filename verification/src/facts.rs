//! A fact set: a deduplicated collection of propositions, viewed in
//! specifications as a `Set<Proposition>`. Insertion order is kept (and
//! deterministic), but the abstract value is the set alone.

use vstd::prelude::*;

use crate::prop::Proposition;

verus! {

/// A set of unique propositions, "everything currently known true" at
/// some scope.
pub struct Facts {
    pub v: Vec<Proposition>,
}

impl View for Facts {
    type V = Set<Proposition>;

    open spec fn view(&self) -> Set<Proposition> {
        self.v@.to_set()
    }
}

impl Facts {
    /// The underlying sequence, in insertion order.
    pub open spec fn sq(&self) -> Seq<Proposition> {
        self.v@
    }

    /// Internal invariant: no proposition is stored twice.
    pub open spec fn wf(&self) -> bool {
        self.v@.no_duplicates()
    }

    /// The empty fact set.
    pub fn new() -> (r: Facts)
        ensures
            r@ == Set::<Proposition>::empty(),
            r.sq() == Seq::<Proposition>::empty(),
            r.wf(),
    {
        let r = Facts { v: Vec::new() };
        proof {
            assert(r@ =~= Set::<Proposition>::empty());
        }
        r
    }

    /// Membership test by structural equality.
    pub fn contains(&self, p: &Proposition) -> (r: bool)
        ensures
            r == self@.contains(*p),
    {
        let n = self.v.len();
        for i in 0..n
            invariant
                n == self.v@.len(),
                forall|j: int| 0 <= j < i ==> self.v@[j] != *p,
        {
            if crate::prop::eq_prop(&self.v[i], p) {
                return true;
            }
        }
        proof {
            assert(!self.v@.contains(*p));
        }
        false
    }

    /// Inserts a proposition; a duplicate leaves the set unchanged.
    pub fn insert(&mut self, p: Proposition)
        requires
            old(self).wf(),
        ensures
            final(self).wf(),
            final(self)@ == old(self)@.insert(p),
            old(self)@.contains(p) ==> final(self).sq() == old(self).sq(),
            !old(self)@.contains(p) ==> final(self).sq() == old(self).sq().push(p),
    {
        if !self.contains(&p) {
            self.v.push(p);
            proof {
                let vs = self.v@;
                let os = old(self).v@;
                assert(vs.drop_last() =~= os);
                assert forall|q: Proposition| vs.contains(q) implies (os.contains(q) || q == p) by {
                    let i = choose|i: int| 0 <= i < vs.len() && vs[i] == q;
                    if i < os.len() {
                        assert(os[i] == q);
                    }
                }
                assert forall|q: Proposition| os.contains(q) implies vs.contains(q) by {
                    let i = choose|i: int| 0 <= i < os.len() && os[i] == q;
                    assert(vs[i] == q);
                }
                assert(vs.contains(p)) by {
                    assert(vs[vs.len() - 1] == p);
                }
                assert(self@ =~= old(self)@.insert(p));
            }
        } else {
            proof {
                assert(self@ =~= old(self)@.insert(p));
            }
        }
    }

    /// How many propositions are held.
    pub fn len(&self) -> (r: usize)
        ensures
            r == self.sq().len(),
    {
        self.v.len()
    }

    /// The `i`-th proposition in insertion order.
    pub fn get(&self, i: usize) -> (r: &Proposition)
        requires
            i < self.sq().len(),
        ensures
            *r == self.sq()[i as int],
            self@.contains(*r),
    {
        proof {
            assert(self.v@.contains(self.v@[i as int]));
        }
        &self.v[i]
    }

    /// A deduplicated set holds exactly as many propositions as its
    /// sequence, and its abstract set is finite.
    pub proof fn lemma_cardinality(&self)
        requires
            self.wf(),
        ensures
            self@.len() == self.sq().len(),
            self@.finite(),
    {
        broadcast use vstd::seq_lib::seq_to_set_is_finite;

        self.v@.unique_seq_to_set();
    }

    /// The propositions, in insertion order, as a vector.
    pub fn to_vec(&self) -> (r: Vec<Proposition>)
        ensures
            r@ == self.sq(),
    {
        clone_props(&self.v)
    }
}

impl Clone for Facts {
    /// A cloned fact set holds exactly the same propositions.
    fn clone(&self) -> (r: Self)
        ensures
            r.sq() == self.sq(),
            r@ == self@,
            r.wf() == self.wf(),
    {
        Facts { v: clone_props(&self.v) }
    }
}

/// Clones a vector of propositions element by element.
pub fn clone_props(v: &Vec<Proposition>) -> (r: Vec<Proposition>)
    ensures
        r@ == v@,
{
    let mut r: Vec<Proposition> = Vec::new();
    let n = v.len();
    for i in 0..n
        invariant
            n == v@.len(),
            r@ == v@.take(i as int),
    {
        r.push(v[i].clone());
        proof {
            assert(r@ =~= v@.take(i + 1));
        }
    }
    proof {
        assert(v@.take(n as int) =~= v@);
    }
    r
}

} // verus!

use vstd::prelude::*;

verus! {

/// A grid cell coordinate `(x, y)`: `x` counts columns from the left edge,
/// `y` counts rows from the top edge.
pub type Position = (u16, u16);

/// A finite set of positions, backed by a vector that holds each member
/// exactly once. Its view is the mathematical set of its members.
#[derive(Debug)]
pub struct PosSet {
    vec: Vec<Position>,
}

impl View for PosSet {
    type V = Set<Position>;

    closed spec fn view(&self) -> Set<Position> {
        self.vec@.to_set()
    }
}

impl PosSet {
    /// Well-formedness: the backing vector holds no member twice, so its
    /// length is the cardinality of the set.
    pub closed spec fn wf(&self) -> bool {
        self.vec@.no_duplicates()
    }

    /// The view of a `PosSet` is always a finite set.
    pub proof fn lemma_finite(&self)
        ensures
            self@.finite(),
    {
        broadcast use vstd::seq_lib::seq_to_set_is_finite;

    }

    pub fn new() -> (r: PosSet)
        ensures
            r@ == Set::<Position>::empty(),
            r.wf(),
    {
        let r = PosSet { vec: Vec::new() };
        proof {
            assert(r.vec@.to_set() =~= Set::<Position>::empty());
        }
        r
    }

    pub fn contains(&self, position: &Position) -> (r: bool)
        ensures
            r == self@.contains(*position),
    {
        let mut i: usize = 0;
        while i < self.vec.len()
            invariant
                i <= self.vec@.len(),
                forall|j: int| 0 <= j < i ==> self.vec@[j] != *position,
            decreases self.vec@.len() - i,
        {
            if self.vec[i].0 == position.0 && self.vec[i].1 == position.1 {
                assert(self.vec@.contains(*position));
                return true;
            }
            i += 1;
        }
        assert(!self.vec@.contains(*position));
        false
    }

    pub fn insert(&mut self, position: Position)
        requires
            old(self).wf(),
        ensures
            final(self).wf(),
            final(self)@ == old(self)@.insert(position),
    {
        if !self.contains(&position) {
            assert(!self.vec@.contains(position));
            self.vec.push(position);
            proof {
                broadcast use vstd::seq_lib::lemma_seq_contains_after_push;

                assert(self.vec@.to_set() =~= old(self).vec@.to_set().insert(position));
            }
        } else {
            proof {
                assert(self.vec@.to_set() =~= self.vec@.to_set().insert(position));
            }
        }
    }

    pub fn remove(&mut self, position: &Position)
        requires
            old(self).wf(),
        ensures
            final(self).wf(),
            final(self)@ == old(self)@.remove(*position),
    {
        let mut i: usize = 0;
        while i < self.vec.len()
            invariant
                i <= self.vec@.len(),
                self.vec@ == old(self).vec@,
                old(self).wf(),
                forall|j: int| 0 <= j < i ==> self.vec@[j] != *position,
            decreases self.vec@.len() - i,
        {
            if self.vec[i].0 == position.0 && self.vec[i].1 == position.1 {
                proof {
                    assert(old(self).vec@[i as int] == *position);
                }
                self.vec.remove(i);
                proof {
                    let s = old(self).vec@;
                    let t = self.vec@;
                    let n = s.len() as int;
                    let ii = i as int;
                    s.remove_ensures(ii);
                    assert(t == s.remove(ii));
                    assert(forall|k: int| 0 <= k < ii ==> t[k] == s.remove(ii)[k] && s.remove(ii)[k]
                        == s[k]);
                    assert(forall|k: int|
                        ii <= k < n - 1 ==> t[k] == s.remove(ii)[k] && s.remove(ii)[k] == s[k + 1]);
                    assert forall|q: Position| t.contains(q) implies (s.contains(q) && q
                        != *position) by {
                        let k = choose|k: int| 0 <= k < t.len() && t[k] == q;
                        if k < ii {
                            assert(s[k] == q);
                            assert(s[k] != s[ii]);
                        } else {
                            assert(s[k + 1] == q);
                            assert(s[k + 1] != s[ii]);
                        }
                    }
                    assert forall|q: Position| s.contains(q) && q != *position implies t.contains(
                        q,
                    ) by {
                        let k = choose|k: int| 0 <= k < s.len() && s[k] == q;
                        if k < ii {
                            assert(t[k] == q);
                        } else {
                            assert(k != ii);
                            assert(t[k - 1] == q);
                        }
                    }
                    assert(t.to_set() =~= s.to_set().remove(*position));
                    s.unique_seq_to_set();
                    assert(s.to_set().contains(*position));
                    assert(t.to_set().len() == s.to_set().len() - 1) by {
                        broadcast use vstd::set::group_set_axioms;
                        broadcast use vstd::seq_lib::seq_to_set_is_finite;

                    }
                    t.lemma_no_dup_set_cardinality();
                }
                return ;
            }
            i += 1;
        }
        proof {
            assert(!self.vec@.contains(*position));
            assert(self.vec@.to_set() =~= self.vec@.to_set().remove(*position));
        }
    }

    pub fn len(&self) -> (r: usize)
        requires
            self.wf(),
        ensures
            r == self@.len(),
    {
        proof {
            self.vec@.unique_seq_to_set();
        }
        self.vec.len()
    }

    pub fn is_empty(&self) -> (r: bool)
        requires
            self.wf(),
        ensures
            r == (self@.len() == 0),
    {
        self.len() == 0
    }

    /// The members as a vector, one entry per member.
    pub fn to_vec(&self) -> (r: Vec<Position>)
        ensures
            forall|q: Position| #[trigger] r@.contains(q) <==> self@.contains(q),
            self.wf() ==> r@.no_duplicates(),
    {
        let mut r: Vec<Position> = Vec::new();
        let mut i: usize = 0;
        while i < self.vec.len()
            invariant
                i <= self.vec@.len(),
                r@ == self.vec@.subrange(0, i as int),
            decreases self.vec@.len() - i,
        {
            r.push(self.vec[i]);
            proof {
                assert(r@ =~= self.vec@.subrange(0, i as int + 1));
            }
            i += 1;
        }
        proof {
            assert(r@ == self.vec@);
            assert(forall|q: Position| #[trigger] r@.contains(q) <==> self@.contains(q));
        }
        r
    }

    pub fn clear(&mut self)
        ensures
            final(self).wf(),
            final(self)@ == Set::<Position>::empty(),
    {
        self.vec.clear();
        proof {
            assert(self.vec@.to_set() =~= Set::<Position>::empty());
        }
    }
}

} // verus!

//! A set of topic names without duplicates.

use vstd::prelude::*;

verus! {

/// The characters of each name, in order.
pub open spec fn names_view(names: Seq<String>) -> Seq<Seq<char>> {
    names.map_values(|s: String| s@)
}

/// No name occurs twice.
pub open spec fn distinct_names(names: Seq<String>) -> bool {
    forall|i: int, j: int| 0 <= i < j < names.len() ==> names[i]@ != names[j]@
}

/// A set of topic names.
pub struct TopicSet {
    names: Vec<String>,
}

impl View for TopicSet {
    type V = Set<Seq<char>>;

    closed spec fn view(&self) -> Set<Seq<char>> {
        names_view(self.names@).to_set()
    }
}

impl TopicSet {
    #[verifier::type_invariant]
    closed spec fn wf(&self) -> bool {
        distinct_names(self.names@)
    }

    /// The number of topics.
    pub closed spec fn spec_len(&self) -> nat {
        self.names@.len()
    }

    proof fn lemma_len_is_set_len(&self)
        requires
            self.wf(),
        ensures
            self@.len() == self.spec_len(),
            self@.finite(),
    {
        let v = names_view(self.names@);
        assert(v.no_duplicates());
        v.unique_seq_to_set();
    }

    /// The number of topics.
    pub fn len(&self) -> (n: usize)
        ensures
            n == self@.len(),
    {
        proof {
            use_type_invariant(self);
            self.lemma_len_is_set_len();
        }
        self.names.len()
    }

    /// The empty set.
    pub fn new() -> (t: Self)
        ensures
            t@ == Set::<Seq<char>>::empty(),
    {
        let t = TopicSet { names: Vec::new() };
        proof {
            assert(names_view(t.names@).to_set() =~= Set::<Seq<char>>::empty());
        }
        t
    }

    fn find(&self, topic: &String) -> (r: Option<usize>)
        ensures
            r matches Some(i) ==> i < self.names@.len() && self.names@[i as int]@ == topic@,
            r is None ==> !self@.contains(topic@),
    {
        let mut i: usize = 0;
        while i < self.names.len()
            invariant
                i <= self.names@.len(),
                forall|j: int| 0 <= j < i ==> self.names@[j]@ != topic@,
            decreases self.names@.len() - i,
        {
            if self.names[i] == *topic {
                return Some(i);
            }
            i += 1;
        }
        proof {
            if self@.contains(topic@) {
                let j = names_view(self.names@).index_of(topic@);
                assert(self.names@[j]@ == topic@);
            }
        }
        None
    }

    /// Whether `topic` is in the set.
    pub fn contains(&self, topic: &String) -> (b: bool)
        ensures
            b == self@.contains(topic@),
    {
        match self.find(topic) {
            Some(i) => {
                proof {
                    assert(names_view(self.names@)[i as int] == topic@);
                }
                true
            },
            None => false,
        }
    }

    /// Add `topic`; returns whether it was new.
    pub fn insert(&mut self, topic: String) -> (added: bool)
        ensures
            final(self)@ == old(self)@.insert(topic@),
            added == !old(self)@.contains(topic@),
    {
        proof {
            use_type_invariant(&*self);
        }
        match self.find(&topic) {
            Some(i) => {
                proof {
                    assert(names_view(self.names@)[i as int] == topic@);
                    assert(self@.insert(topic@) =~= self@);
                }
                false
            },
            None => {
                let ghost old_names = self.names@;
                proof {
                    assert forall|j: int| 0 <= j < old_names.len() implies old_names[j]@
                        != topic@ by {
                        assert(names_view(old_names)[j] == old_names[j]@);
                    }
                }
                let mut names: Vec<String> = Vec::new();
                std::mem::swap(&mut names, &mut self.names);
                names.push(topic);
                proof {
                    assert(names@ =~= old_names.push(topic));
                    assert(distinct_names(names@));
                }
                self.names = names;
                proof {
                    let ov = names_view(old_names);
                    let nv = names_view(self.names@);
                    assert(nv =~= ov.push(topic@));
                    assert forall|x: Seq<char>| #[trigger] nv.to_set().contains(x) == ov.to_set().insert(
                        topic@,
                    ).contains(x) by {
                        if nv.contains(x) {
                            let j = nv.index_of(x);
                            if j < ov.len() {
                                assert(ov[j] == x);
                            }
                        }
                        if ov.contains(x) {
                            let j = ov.index_of(x);
                            assert(nv[j] == x);
                        }
                        if x == topic@ {
                            assert(nv[ov.len() as int] == x);
                        }
                    }
                    assert(nv.to_set() =~= ov.to_set().insert(topic@));
                }
                true
            },
        }
    }

    /// Remove `topic`; returns whether it was present.
    pub fn remove(&mut self, topic: &String) -> (removed: bool)
        ensures
            final(self)@ == old(self)@.remove(topic@),
            removed == old(self)@.contains(topic@),
    {
        proof {
            use_type_invariant(&*self);
        }
        match self.find(topic) {
            Some(i) => {
                let ghost old_names = self.names@;
                let mut names: Vec<String> = Vec::new();
                std::mem::swap(&mut names, &mut self.names);
                names.remove(i);
                self.names = names;
                proof {
                    let ov = names_view(old_names);
                    assert(ov[i as int] == topic@);
                    assert(names_view(self.names@) =~= ov.remove(i as int));
                    assert forall|x: Seq<char>| #[trigger]
                        names_view(self.names@).to_set().contains(x) == old_names.map_values(
                            |s: String| s@,
                        ).to_set().remove(topic@).contains(x) by {
                        if names_view(self.names@).contains(x) {
                            let j = names_view(self.names@).index_of(x);
                            if j < i {
                                assert(ov[j] == x);
                            } else {
                                assert(ov[j + 1] == x);
                            }
                        }
                        if ov.contains(x) && x != topic@ {
                            let j = ov.index_of(x);
                            if j < i {
                                assert(names_view(self.names@)[j] == x);
                            } else {
                                assert(names_view(self.names@)[j - 1] == x);
                            }
                        }
                    }
                    assert(names_view(self.names@).to_set() =~= names_view(old_names).to_set().remove(
                        topic@,
                    ));
                }
                true
            },
            None => {
                proof {
                    assert(self@.remove(topic@) =~= self@);
                }
                false
            },
        }
    }

    /// All topics, each once.
    pub fn to_vec(&self) -> (v: Vec<String>)
        ensures
            names_view(v@).to_set() == self@,
            distinct_names(v@),
            v@.len() == self@.len(),
    {
        proof {
            use_type_invariant(self);
            self.lemma_len_is_set_len();
        }
        let mut out: Vec<String> = Vec::new();
        let mut i: usize = 0;
        while i < self.names.len()
            invariant
                i <= self.names@.len(),
                distinct_names(self.names@),
                out@.len() == i,
                forall|j: int| 0 <= j < i ==> #[trigger] out@[j]@ == self.names@[j]@,
            decreases self.names@.len() - i,
        {
            out.push(self.names[i].clone());
            i += 1;
        }
        proof {
            assert(names_view(out@) =~= names_view(self.names@));
        }
        out
    }
}

} // verus!

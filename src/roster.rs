use vstd::prelude::*;

verus! {

/// The mapping a sequence of `(id, name)` pairs denotes; a later pair wins over
/// an earlier one with the same id (never the case in a well-formed roster).
pub open spec fn map_of(s: Seq<(u64, Seq<char>)>) -> Map<u64, Seq<char>>
    decreases s.len(),
{
    if s.len() == 0 {
        Map::empty()
    } else {
        map_of(s.drop_last()).insert(s.last().0, s.last().1)
    }
}

/// No id occurs twice.
pub open spec fn ids_unique(s: Seq<(u64, Seq<char>)>) -> bool {
    forall|i: int, j: int| 0 <= i < s.len() && 0 <= j < s.len() && i != j ==> s[i].0 != s[j].0
}

pub open spec fn has_id(s: Seq<(u64, Seq<char>)>, id: u64) -> bool {
    exists|i: int| 0 <= i < s.len() && s[i].0 == id
}

/// An id is mapped exactly where some pair has it.
pub proof fn lemma_map_of_dom(s: Seq<(u64, Seq<char>)>, id: u64)
    ensures
        map_of(s).contains_key(id) <==> has_id(s, id),
    decreases s.len(),
{
    if s.len() > 0 {
        lemma_map_of_dom(s.drop_last(), id);
        if has_id(s, id) && s.last().0 != id {
            let i = choose|i: int| 0 <= i < s.len() && s[i].0 == id;
            assert(s.drop_last()[i].0 == id);
        }
    }
}

/// With ids unique, each pair is what the mapping says of its id.
pub proof fn lemma_map_of_at(s: Seq<(u64, Seq<char>)>, i: int)
    requires
        ids_unique(s),
        0 <= i < s.len(),
    ensures
        map_of(s).contains_key(s[i].0),
        map_of(s)[s[i].0] == s[i].1,
    decreases s.len(),
{
    if i < s.len() - 1 {
        lemma_map_of_at(s.drop_last(), i);
    }
}

/// Appending a pair inserts it into the mapping.
pub proof fn lemma_map_of_push(s: Seq<(u64, Seq<char>)>, e: (u64, Seq<char>))
    ensures
        map_of(s.push(e)) == map_of(s).insert(e.0, e.1),
{
    assert(s.push(e).drop_last() =~= s);
}

/// With ids unique, taking out a pair removes its id from the mapping.
pub proof fn lemma_map_of_remove(s: Seq<(u64, Seq<char>)>, j: int)
    requires
        ids_unique(s),
        0 <= j < s.len(),
    ensures
        map_of(s.remove(j)) == map_of(s).remove(s[j].0),
    decreases s.len(),
{
    let k = s[j].0;
    if j == s.len() - 1 {
        assert(s.remove(j) =~= s.drop_last());
        lemma_map_of_dom(s.drop_last(), k);
        assert(map_of(s).remove(k) =~= map_of(s.drop_last()));
    } else {
        let t = s.drop_last();
        assert(ids_unique(t));
        lemma_map_of_remove(t, j);
        assert(s.remove(j) =~= t.remove(j).push(s.last()));
        lemma_map_of_push(t.remove(j), s.last());
        assert(s.last().0 != k);
        assert(map_of(s.remove(j)) =~= map_of(s).remove(k));
    }
}

/// The set of ids of the roster, as the sequence of its pairs lists them.
pub proof fn lemma_map_of_ids(s: Seq<(u64, Seq<char>)>)
    ensures
        map_of(s).dom() == s.map_values(|e: (u64, Seq<char>)| e.0).to_set(),
{
    let ids = s.map_values(|e: (u64, Seq<char>)| e.0);
    assert forall|id: u64| map_of(s).dom().contains(id) <==> ids.to_set().contains(id) by {
        lemma_map_of_dom(s, id);
        if ids.contains(id) {
            let i = choose|i: int| 0 <= i < ids.len() && ids[i] == id;
            assert(s[i].0 == id);
        }
        if has_id(s, id) {
            let i = choose|i: int| 0 <= i < s.len() && s[i].0 == id;
            assert(ids[i] == id);
        }
    }
    assert(map_of(s).dom() =~= ids.to_set());
}

/// The participants that are present: who they are and what they are called.
/// The pairs keep the order in which the participants arrived.
pub struct Roster {
    entries: Vec<(u64, String)>,
}

impl View for Roster {
    type V = Map<u64, Seq<char>>;

    /// The mapping from each present id to its name.
    open spec fn view(&self) -> Map<u64, Seq<char>> {
        map_of(self.pairs())
    }
}

impl Roster {
    /// The pairs, with each name seen as its characters.
    pub closed spec fn pairs(&self) -> Seq<(u64, Seq<char>)> {
        self.entries@.map_values(|e: (u64, String)| (e.0, e.1@))
    }

    /// Each id stands in one pair at most.
    #[verifier::type_invariant]
    pub open spec fn wf(&self) -> bool {
        ids_unique(self.pairs())
    }

    /// A roster with nobody in it.
    pub fn new() -> (r: Roster)
        ensures
            r@ == Map::<u64, Seq<char>>::empty(),
            r.pairs() == Seq::<(u64, Seq<char>)>::empty(),
    {
        let r = Roster { entries: Vec::new() };
        assert(r.pairs() =~= Seq::<(u64, Seq<char>)>::empty());
        r
    }

    /// Number of present participants.
    pub fn len(&self) -> (n: usize)
        ensures
            n == self@.len(),
            n == self@.dom().len(),
            n == self.pairs().len(),
    {
        proof {
            use_type_invariant(self);
            self.lemma_len();
        }
        self.entries.len()
    }

    proof fn lemma_len(&self)
        requires
            self.wf(),
        ensures
            self@.dom().len() == self.entries@.len(),
            self@.dom().finite(),
    {
        let s = self.pairs();
        let ids = s.map_values(|e: (u64, Seq<char>)| e.0);
        lemma_map_of_ids(s);
        assert(ids.no_duplicates()) by {
            assert forall|i: int, j: int| 0 <= i < ids.len() && 0 <= j < ids.len() && i != j
                implies ids[i] != ids[j] by {
                assert(s[i].0 != s[j].0);
            }
        }
        ids.unique_seq_to_set();
    }

    /// Position of `id` among the pairs, if present.
    fn find(&self, id: u64) -> (r: Option<usize>)
        ensures
            match r {
                Some(i) => i < self.entries@.len() && self.pairs()[i as int].0 == id,
                None => !self@.contains_key(id),
            },
    {
        proof {
            use_type_invariant(self);
        }
        let mut i: usize = 0;
        while i < self.entries.len()
            invariant
                i <= self.entries@.len(),
                forall|k: int| 0 <= k < i ==> self.pairs()[k].0 != id,
            decreases self.entries@.len() - i,
        {
            if self.entries[i].0 == id {
                return Some(i);
            }
            i = i + 1;
        }
        proof {
            lemma_map_of_dom(self.pairs(), id);
        }
        None
    }

    /// Whether `id` is present.
    pub fn contains(&self, id: u64) -> (r: bool)
        ensures
            r == self@.contains_key(id),
    {
        match self.find(id) {
            Some(i) => {
                proof {
                    use_type_invariant(self);
                    lemma_map_of_at(self.pairs(), i as int);
                }
                true
            },
            None => false,
        }
    }

    /// The name of `id`, if present.
    pub fn get(&self, id: u64) -> (r: Option<String>)
        ensures
            match r {
                Some(name) => self@.contains_key(id) && name@ == self@[id],
                None => !self@.contains_key(id),
            },
    {
        match self.find(id) {
            Some(i) => {
                proof {
                    use_type_invariant(self);
                    lemma_map_of_at(self.pairs(), i as int);
                }
                Some(self.entries[i].1.clone())
            },
            None => None,
        }
    }

    /// Adds `id` with `name` where `id` is absent; where it is present, nothing
    /// changes and the result is `false`.
    pub fn insert(&mut self, id: u64, name: String) -> (added: bool)
        ensures
            added == !old(self)@.contains_key(id),
            final(self)@ == if added {
                old(self)@.insert(id, name@)
            } else {
                old(self)@
            },
            final(self).pairs() == if added {
                old(self).pairs().push((id, name@))
            } else {
                old(self).pairs()
            },
    {
        if self.contains(id) {
            return false;
        }
        proof {
            use_type_invariant(&*self);
            lemma_map_of_dom(self.pairs(), id);
        }
        let ghost before = self.pairs();
        proof {
            let after = before.push((id, name@));
            assert forall|i: int| 0 <= i < before.len() implies before[i].0 != id by {
                if before[i].0 == id {
                    assert(has_id(before, id));
                }
            }
            assert(ids_unique(after)) by {
                assert forall|a: int, b: int| 0 <= a < after.len() && 0 <= b < after.len() && a
                    != b implies after[a].0 != after[b].0 by {
                    if a < before.len() && b < before.len() {
                        assert(after[a] == before[a] && after[b] == before[b]);
                    }
                }
            }
            lemma_map_of_push(before, (id, name@));
        }
        let mut entries: Vec<(u64, String)> = Vec::new();
        std::mem::swap(&mut self.entries, &mut entries);
        entries.push((id, name));
        assert(entries@.map_values(|e: (u64, String)| (e.0, e.1@)) =~= before.push((id, name@)));
        *self = Roster { entries };
        true
    }

    /// Removes `id` and gives back the name it had, or `None` where it was absent.
    pub fn remove(&mut self, id: u64) -> (r: Option<String>)
        ensures
            final(self)@ == old(self)@.remove(id),
            match r {
                Some(name) => old(self)@.contains_key(id) && name@ == old(self)@[id],
                None => !old(self)@.contains_key(id),
            },
    {
        match self.find(id) {
            Some(i) => {
                let ghost before = self.pairs();
                proof {
                    use_type_invariant(&*self);
                    lemma_map_of_at(before, i as int);
                    lemma_map_of_remove(before, i as int);
                    let after = before.remove(i as int);
                    assert(ids_unique(after)) by {
                        assert forall|a: int, b: int|
                            0 <= a < after.len() && 0 <= b < after.len() && a != b implies after[a].0
                                != after[b].0 by {
                            let a2 = if a < i { a } else { a + 1 };
                            let b2 = if b < i { b } else { b + 1 };
                            assert(after[a] == before[a2]);
                            assert(after[b] == before[b2]);
                        }
                    }
                    assert(self.entries@.remove(i as int).map_values(
                        |e: (u64, String)| (e.0, e.1@),
                    ) =~= after);
                }
                let mut entries: Vec<(u64, String)> = Vec::new();
                std::mem::swap(&mut self.entries, &mut entries);
                let (_, name) = entries.remove(i);
                *self = Roster { entries };
                proof {
                    assert(self.pairs() =~= before.remove(i as int));
                }
                Some(name)
            },
            None => {
                assert(self@ =~= self@.remove(id));
                None
            },
        }
    }

    /// The present ids, in order of arrival, each once.
    pub fn ids(&self) -> (r: Vec<u64>)
        ensures
            r@.to_set() == self@.dom(),
            r@.no_duplicates(),
    {
        proof {
            use_type_invariant(self);
        }
        let mut out: Vec<u64> = Vec::new();
        let mut i: usize = 0;
        while i < self.entries.len()
            invariant
                i <= self.entries@.len(),
                out@ == self.pairs().take(i as int).map_values(|e: (u64, Seq<char>)| e.0),
            decreases self.entries@.len() - i,
        {
            out.push(self.entries[i].0);
            i = i + 1;
            proof {
                assert(out@ =~= self.pairs().take(i as int).map_values(
                    |e: (u64, Seq<char>)| e.0,
                ));
            }
        }
        proof {
            let s = self.pairs();
            assert(s.take(i as int) =~= s);
            lemma_map_of_ids(s);
            assert forall|a: int, b: int| 0 <= a < out@.len() && 0 <= b < out@.len() && a != b
                implies out@[a] != out@[b] by {
                assert(s[a].0 != s[b].0);
            }
        }
        out
    }

    /// The pair at position `i`, in order of arrival.
    pub fn pair_at(&self, i: usize) -> (r: (u64, &String))
        requires
            i < self.pairs().len(),
        ensures
            r.0 == self.pairs()[i as int].0,
            r.1@ == self.pairs()[i as int].1,
    {
        (self.entries[i].0, &self.entries[i].1)
    }

    /// A copy with the same contents.
    pub fn duplicate(&self) -> (r: Roster)
        ensures
            r@ == self@,
            r.pairs() == self.pairs(),
    {
        proof {
            use_type_invariant(self);
        }
        let mut out: Vec<(u64, String)> = Vec::new();
        let mut i: usize = 0;
        while i < self.entries.len()
            invariant
                i <= self.entries@.len(),
                out@.len() == i,
                forall|k: int| 0 <= k < i ==> out@[k].0 == self.entries@[k].0 && out@[k].1@
                    == self.entries@[k].1@,
            decreases self.entries@.len() - i,
        {
            let id = self.entries[i].0;
            let name = self.entries[i].1.clone();
            out.push((id, name));
            i = i + 1;
        }
        assert(out@.map_values(|e: (u64, String)| (e.0, e.1@)) =~= self.pairs());
        let r = Roster { entries: out };
        r
    }
}

} // verus!

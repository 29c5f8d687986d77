use vstd::prelude::*;
use crate::coord::Coordinate;
use crate::idset::{contains_id, distinct_ids, id_set, ids_view};

verus! {

/// The accepted dataset: each identifier mapped to the coordinate it was located at.
pub struct LocationSet {
    ids: Vec<String>,
    coords: Vec<Coordinate>,
}

impl LocationSet {
    /// Identifiers and coordinates pair up, and no identifier occurs twice.
    pub closed spec fn wf(&self) -> bool {
        &&& self.ids@.len() == self.coords@.len()
        &&& distinct_ids(self.ids@)
    }

    /// The position at which an identifier is stored.
    pub closed spec fn slot(&self, k: Seq<char>) -> int {
        choose|i: int| 0 <= i < self.ids@.len() && self.ids@[i]@ == k
    }

    /// The dataset as a map from identifier to coordinate.
    pub closed spec fn view(&self) -> Map<Seq<char>, Coordinate> {
        Map::new(
            |k: Seq<char>| id_set(self.ids@).contains(k),
            |k: Seq<char>| self.coords@[self.slot(k)],
        )
    }

    proof fn lemma_slot(&self, i: int)
        requires
            self.wf(),
            0 <= i < self.ids@.len(),
        ensures
            self.slot(self.ids@[i]@) == i,
            self.view().contains_key(self.ids@[i]@),
            self.view()[self.ids@[i]@] == self.coords@[i],
    {
        let k = self.ids@[i]@;
        assert(ids_view(self.ids@)[i] == k);
        let j = self.slot(k);
        assert(ids_view(self.ids@)[j] == k);
    }

    proof fn lemma_dom(&self)
        requires
            self.wf(),
        ensures
            self.view().dom() == id_set(self.ids@),
    {
        assert(self.view().dom() =~= id_set(self.ids@));
    }

    /// An empty dataset.
    pub fn new() -> (r: LocationSet)
        ensures
            r.wf(),
            r.view() == Map::<Seq<char>, Coordinate>::empty(),
    {
        let r = LocationSet { ids: Vec::new(), coords: Vec::new() };
        assert(ids_view(r.ids@) =~= Seq::empty());
        assert(r.view() =~= Map::<Seq<char>, Coordinate>::empty());
        r
    }

    /// The number of identifiers held.
    pub fn len(&self) -> (r: usize)
        requires
            self.wf(),
        ensures
            r == self.view().len(),
    {
        proof {
            self.lemma_dom();
            ids_view(self.ids@).unique_seq_to_set();
            assert(id_set(self.ids@) =~= ids_view(self.ids@).to_set());
        }
        self.ids.len()
    }

    /// Where the identifier stands in the storage, if it is held.
    fn find(&self, id: &String) -> (r: Option<usize>)
        requires
            self.wf(),
        ensures
            r is None ==> !self.view().contains_key(id@),
            r matches Some(i) ==> i < self.ids@.len() && self.ids@[i as int]@ == id@,
    {
        let mut i: usize = 0;
        while i < self.ids.len()
            invariant
                self.wf(),
                i <= self.ids@.len(),
                forall|j: int| 0 <= j < i ==> self.ids@[j]@ != id@,
            decreases self.ids@.len() - i,
        {
            if self.ids[i] == *id {
                return Some(i);
            }
            i = i + 1;
        }
        proof {
            if self.view().contains_key(id@) {
                let j = choose|j: int| 0 <= j < ids_view(self.ids@).len() && ids_view(self.ids@)[j] == id@;
                assert(self.ids@[j]@ == id@);
            }
        }
        None
    }

    /// Whether the identifier is held.
    pub fn contains(&self, id: &String) -> (r: bool)
        requires
            self.wf(),
        ensures
            r == self.view().contains_key(id@),
    {
        match self.find(id) {
            Some(i) => {
                proof { self.lemma_slot(i as int); }
                true
            },
            None => false,
        }
    }

    /// The coordinate held for the identifier.
    pub fn get(&self, id: &String) -> (r: Option<Coordinate>)
        requires
            self.wf(),
        ensures
            r == (if self.view().contains_key(id@) { Some(self.view()[id@]) } else { None::<Coordinate> }),
    {
        match self.find(id) {
            Some(i) => {
                proof { self.lemma_slot(i as int); }
                Some(self.coords[i])
            },
            None => None,
        }
    }

    /// Sets the coordinate of an identifier, replacing one held before.
    pub fn insert(&mut self, id: String, c: Coordinate)
        requires
            old(self).wf(),
        ensures
            final(self).wf(),
            final(self).view() == old(self).view().insert(id@, c),
    {
        let ghost pre = *self;
        match self.find(&id) {
            Some(i) => {
                self.coords.set(i, c);
                proof {
                    assert(self.ids@ == pre.ids@);
                    assert forall|k: Seq<char>| #[trigger] self.view().contains_key(k) implies
                        self.view()[k] == pre.view().insert(id@, c)[k] by {
                        let j = self.slot(k);
                        assert(ids_view(self.ids@).contains(k));
                        let m = choose|m: int| 0 <= m < ids_view(self.ids@).len() && ids_view(self.ids@)[m] == k;
                        self.lemma_slot(m);
                        pre.lemma_slot(m);
                        if k == id@ {
                            self.lemma_slot(i as int);
                        }
                    }
                    pre.lemma_slot(i as int);
                    assert(self.view() =~= pre.view().insert(id@, c));
                }
            },
            None => {
                self.ids.push(id);
                self.coords.push(c);
                proof {
                    let n = pre.ids@.len() as int;
                    assert(ids_view(self.ids@) =~= ids_view(pre.ids@).push(id@));
                    assert(!ids_view(pre.ids@).contains(id@));
                    assert(distinct_ids(self.ids@));
                    assert forall|k: Seq<char>| #[trigger] self.view().contains_key(k) <==>
                        pre.view().insert(id@, c).contains_key(k) by {
                        if ids_view(pre.ids@).contains(k) {
                            let m = choose|m: int| 0 <= m < ids_view(pre.ids@).len() && ids_view(pre.ids@)[m] == k;
                            assert(ids_view(self.ids@)[m] == k);
                        }
                        if k == id@ {
                            assert(ids_view(self.ids@)[n] == k);
                        }
                    }
                    assert forall|k: Seq<char>| #[trigger] self.view().contains_key(k) implies
                        self.view()[k] == pre.view().insert(id@, c)[k] by {
                        let m = choose|m: int| 0 <= m < ids_view(self.ids@).len() && ids_view(self.ids@)[m] == k;
                        self.lemma_slot(m);
                        if m < n {
                            pre.lemma_slot(m);
                        }
                    }
                    assert(self.view() =~= pre.view().insert(id@, c));
                }
            },
        }
    }

    /// The identifier stored at position `i`; positions run from 0 to `len()`.
    pub fn id_at(&self, i: usize) -> (r: &String)
        requires
            self.wf(),
            i < self.view().len(),
        ensures
            self.view().contains_key(r@),
    {
        proof {
            self.lemma_dom();
            ids_view(self.ids@).unique_seq_to_set();
            assert(id_set(self.ids@) =~= ids_view(self.ids@).to_set());
            self.lemma_slot(i as int);
        }
        &self.ids[i]
    }

    /// The coordinate stored at position `i`, that of `id_at(i)`.
    pub fn coord_at(&self, i: usize) -> (r: Coordinate)
        requires
            self.wf(),
            i < self.view().len(),
        ensures
            self.view()[self.id_at_spec(i as int)@] == r,
    {
        proof {
            self.lemma_dom();
            ids_view(self.ids@).unique_seq_to_set();
            assert(id_set(self.ids@) =~= ids_view(self.ids@).to_set());
            self.lemma_slot(i as int);
        }
        self.coords[i]
    }

    /// The identifier that `id_at(i)` returns.
    pub closed spec fn id_at_spec(&self, i: int) -> String {
        self.ids@[i]
    }

    /// The identifiers held, each once.
    pub fn keys(&self) -> (r: Vec<String>)
        requires
            self.wf(),
        ensures
            distinct_ids(r@),
            id_set(r@) == self.view().dom(),
    {
        let mut r: Vec<String> = Vec::new();
        let mut i: usize = 0;
        while i < self.ids.len()
            invariant
                self.wf(),
                i <= self.ids@.len(),
                ids_view(r@) == ids_view(self.ids@.take(i as int)),
            decreases self.ids@.len() - i,
        {
            let ghost pr = r@;
            let c = self.ids[i].clone();
            r.push(c);
            assert(self.ids@.take(i + 1) =~= self.ids@.take(i as int).push(self.ids@[i as int]));
            assert(ids_view(r@) =~= ids_view(pr).push(c@));
            assert(ids_view(r@) =~= ids_view(self.ids@.take(i + 1)));
            i = i + 1;
        }
        assert(self.ids@.take(i as int) =~= self.ids@);
        assert(id_set(r@) =~= id_set(self.ids@));
        proof { self.lemma_dom(); }
        r
    }

    /// Drops every identifier that `gone` names.
    pub fn remove_all(&mut self, gone: &Vec<String>)
        requires
            old(self).wf(),
        ensures
            final(self).wf(),
            final(self).view() == old(self).view().remove_keys(id_set(gone@)),
    {
        let mut kept = LocationSet::new();
        let mut i: usize = 0;
        while i < self.ids.len()
            invariant
                self.wf(),
                kept.wf(),
                i <= self.ids@.len(),
                kept.view() == self.view().restrict(
                    id_set(self.ids@.take(i as int)).difference(id_set(gone@)),
                ),
            decreases self.ids@.len() - i,
        {
            proof {
                crate::idset::lemma_id_set_take_step(self.ids@, i as int);
                self.lemma_slot(i as int);
            }
            let ghost before = kept.view();
            if !contains_id(gone, &self.ids[i]) {
                kept.insert(self.ids[i].clone(), self.coords[i]);
            }
            i = i + 1;
            assert(kept.view() =~= self.view().restrict(
                id_set(self.ids@.take(i as int)).difference(id_set(gone@)),
            ));
        }
        assert(self.ids@.take(i as int) =~= self.ids@);
        proof { self.lemma_dom(); }
        assert(kept.view() =~= self.view().remove_keys(id_set(gone@)));
        *self = kept;
    }
}

} // verus!

use vstd::prelude::*;
use vstd::string::StringExecFns;
use crate::coord::Coordinate;
use crate::idset::{distinct_ids, id_set, ids_view, lemma_distinct_fresh, lemma_id_set_push, lemma_id_set_take_step, union_ids};
use crate::locset::LocationSet;
use crate::words::{is_live_camera, passes_filter};

verus! {

/// The title and author that the descriptor source gives for a video.
pub struct Descriptor {
    pub title: String,
    pub author: String,
}

/// The free-text address made of a descriptor: title, one space, author.
pub open spec fn address_of(title: Seq<char>, author: Seq<char>) -> Seq<char> {
    title + seq![' '] + author
}

/// Joins title and author into the address that is filtered and geocoded.
pub fn make_address(d: &Descriptor) -> (r: String)
    ensures
        r@ == address_of(d.title@, d.author@),
{
    let mut a = String::from_str(d.title.as_str());
    a.append(" ");
    a.append(d.author.as_str());
    proof {
        reveal_strlit(" ");
    }
    a
}

/// Where the resolution of the current candidate stands.
pub enum Stage {
    /// Waiting for the platform metadata (the first tier).
    Metadata,
    /// Waiting for the title and author (the second tier).
    Descriptor,
    /// Waiting for the geocoder's answer on this address.
    Geocode(String),
}

/// The lookup that the resolution needs next.
pub enum Request {
    Metadata(String),
    Descriptor(String),
    Geocode(String),
    Finished,
}

/// The answer to a request.
pub enum Answer {
    /// The coordinate embedded in the metadata, or none (absent, or the fetch failed).
    Metadata(Option<Coordinate>),
    /// The descriptor, or none when it could not be had.
    Descriptor(Option<Descriptor>),
    /// The coordinate of the geocoder's first result, or none.
    Geocoded(Option<Coordinate>),
}

/// Resolution of candidate identifiers, one at a time, through the tiers in order.
pub struct Resolution {
    candidates: Vec<String>,
    patterns: Vec<String>,
    pos: usize,
    stage: Stage,
    from_metadata: LocationSet,
    from_geocoding: LocationSet,
    rejected: Vec<String>,
    rejected_addresses: Vec<String>,
    unresolved: Vec<String>,
}

impl Resolution {
    /// The candidates, in the order they are resolved.
    pub closed spec fn candidates(&self) -> Seq<Seq<char>> {
        ids_view(self.candidates@)
    }

    /// The content filter's patterns.
    pub closed spec fn patterns(&self) -> Seq<String> {
        self.patterns@
    }

    /// How many candidates are settled.
    pub closed spec fn pos(&self) -> nat {
        self.pos as nat
    }

    pub closed spec fn stage(&self) -> Stage {
        self.stage
    }

    /// Candidates located by their platform metadata.
    pub closed spec fn from_metadata(&self) -> Map<Seq<char>, Coordinate> {
        self.from_metadata.view()
    }

    /// Candidates located by geocoding their address.
    pub closed spec fn from_geocoding(&self) -> Map<Seq<char>, Coordinate> {
        self.from_geocoding.view()
    }

    /// Candidates whose address the content filter rejected.
    pub closed spec fn rejected(&self) -> Set<Seq<char>> {
        id_set(self.rejected@)
    }

    /// The addresses that the content filter rejected, in order.
    pub closed spec fn rejected_addresses(&self) -> Seq<Seq<char>> {
        ids_view(self.rejected_addresses@)
    }

    /// Candidates for which no location could be found.
    pub closed spec fn unresolved(&self) -> Set<Seq<char>> {
        id_set(self.unresolved@)
    }

    /// Each settled candidate stands in exactly one outcome, and no other identifier does.
    pub closed spec fn wf(&self) -> bool {
        let done = id_set(self.candidates@.take(self.pos as int));
        &&& distinct_ids(self.candidates@)
        &&& self.pos <= self.candidates@.len()
        &&& self.from_metadata.wf()
        &&& self.from_geocoding.wf()
        &&& self.from_metadata.view().dom().union(self.from_geocoding.view().dom()).union(
            id_set(self.rejected@),
        ).union(id_set(self.unresolved@)) == done
        &&& self.from_metadata.view().dom().disjoint(self.from_geocoding.view().dom())
        &&& self.from_metadata.view().dom().disjoint(id_set(self.rejected@))
        &&& self.from_metadata.view().dom().disjoint(id_set(self.unresolved@))
        &&& self.from_geocoding.view().dom().disjoint(id_set(self.rejected@))
        &&& self.from_geocoding.view().dom().disjoint(id_set(self.unresolved@))
        &&& id_set(self.rejected@).disjoint(id_set(self.unresolved@))
    }

    /// The identifier the resolution currently works on.
    pub open spec fn current(&self) -> Seq<char> {
        self.candidates()[self.pos() as int]
    }

    /// Starts resolving `candidates`, each once, with the content filter `patterns`.
    pub fn new(candidates: &Vec<String>, patterns: Vec<String>) -> (r: Resolution)
        ensures
            r.wf(),
            r.candidates().no_duplicates(),
            r.candidates().to_set() == id_set(candidates@),
            r.patterns() == patterns@,
            r.pos() == 0,
            r.stage() == Stage::Metadata,
            r.from_metadata().is_empty(),
            r.from_geocoding().is_empty(),
            r.rejected().is_empty(),
            r.unresolved().is_empty(),
            r.rejected_addresses().len() == 0,
    {
        let none: Vec<String> = Vec::new();
        let cs = union_ids(candidates, &none);
        let r = Resolution {
            candidates: cs,
            patterns,
            pos: 0,
            stage: Stage::Metadata,
            from_metadata: LocationSet::new(),
            from_geocoding: LocationSet::new(),
            rejected: Vec::new(),
            rejected_addresses: Vec::new(),
            unresolved: Vec::new(),
        };
        proof {
            assert(id_set(none@) =~= Set::empty());
            assert(id_set(r.rejected@) =~= Set::empty());
            assert(id_set(r.unresolved@) =~= Set::empty());
            assert(id_set(r.candidates@.take(0)) =~= Set::empty());
            assert(ids_view(r.rejected_addresses@) =~= Seq::empty());
            assert(r.candidates().to_set() =~= id_set(candidates@));
            assert(r.from_metadata.view().dom().union(r.from_geocoding.view().dom()).union(
                id_set(r.rejected@)).union(id_set(r.unresolved@)) =~= Set::empty());
        }
        r
    }

    /// Whether every candidate is settled.
    pub fn is_finished(&self) -> (r: bool)
        requires
            self.wf(),
        ensures
            r == (self.pos() == self.candidates().len()),
    {
        self.pos == self.candidates.len()
    }

    /// The lookup to make next.
    pub fn request(&self) -> (r: Request)
        requires
            self.wf(),
        ensures
            self.pos() == self.candidates().len() ==> r is Finished,
            self.pos() < self.candidates().len() ==> match self.stage() {
                Stage::Metadata => r matches Request::Metadata(id) && id@ == self.current(),
                Stage::Descriptor => r matches Request::Descriptor(id) && id@ == self.current(),
                Stage::Geocode(a) => r matches Request::Geocode(b) && b@ == a@,
            },
    {
        if self.pos == self.candidates.len() {
            return Request::Finished;
        }
        proof { assert(ids_view(self.candidates@)[self.pos as int] == self.candidates@[self.pos as int]@); }
        match &self.stage {
            Stage::Metadata => Request::Metadata(self.candidates[self.pos].clone()),
            Stage::Descriptor => Request::Descriptor(self.candidates[self.pos].clone()),
            Stage::Geocode(a) => Request::Geocode(a.clone()),
        }
    }

    /// Whether `a` answers the request of the current stage.
    pub open spec fn fits(&self, a: Answer) -> bool {
        &&& self.pos() < self.candidates().len()
        &&& match (self.stage(), a) {
            (Stage::Metadata, Answer::Metadata(_)) => true,
            (Stage::Descriptor, Answer::Descriptor(_)) => true,
            (Stage::Geocode(_), Answer::Geocoded(_)) => true,
            _ => false,
        }
    }

    /// The current candidate is settled and the next one starts at the first tier.
    pub open spec fn advanced(&self, prev: &Resolution) -> bool {
        &&& self.pos() == prev.pos() + 1
        &&& self.stage() == Stage::Metadata
    }

    /// Nothing else changed than what is named.
    pub open spec fn keeps(&self, prev: &Resolution, meta: bool, geo: bool, rej: bool, unres: bool) -> bool {
        &&& self.candidates() == prev.candidates()
        &&& self.patterns() == prev.patterns()
        &&& (meta || self.from_metadata() == prev.from_metadata())
        &&& (geo || self.from_geocoding() == prev.from_geocoding())
        &&& (rej || (self.rejected() == prev.rejected() && self.rejected_addresses() == prev.rejected_addresses()))
        &&& (unres || self.unresolved() == prev.unresolved())
    }

    proof fn lemma_step(&self)
        requires
            self.wf(),
            self.pos() < self.candidates().len(),
        ensures
            id_set(self.candidates@.take(self.pos + 1)) == id_set(self.candidates@.take(self.pos as int)).insert(self.current()),
            !id_set(self.candidates@.take(self.pos as int)).contains(self.current()),
            self.candidates@[self.pos as int]@ == self.current(),
    {
        lemma_id_set_take_step(self.candidates@, self.pos as int);
        lemma_distinct_fresh(self.candidates@, self.pos as int);
        assert(ids_view(self.candidates@)[self.pos as int] == self.candidates@[self.pos as int]@);
    }

    /// Takes in the answer to the current request. An answer that does not fit the
    /// current stage is refused (`false`) and changes nothing.
    pub fn feed(&mut self, a: Answer) -> (r: bool)
        requires
            old(self).wf(),
        ensures
            final(self).wf(),
            r == old(self).fits(a),
            !r ==> *final(self) == *old(self),
            r ==> match (old(self).stage(), a) {
                (Stage::Metadata, Answer::Metadata(Some(c))) =>
                    final(self).advanced(old(self)) && final(self).keeps(old(self), true, false, false, false)
                    && final(self).from_metadata() == old(self).from_metadata().insert(old(self).current(), c),
                (Stage::Metadata, Answer::Metadata(None)) =>
                    final(self).pos() == old(self).pos() && final(self).stage() == Stage::Descriptor
                    && final(self).keeps(old(self), false, false, false, false),
                (Stage::Descriptor, Answer::Descriptor(None)) =>
                    final(self).advanced(old(self)) && final(self).keeps(old(self), false, false, false, true)
                    && final(self).unresolved() == old(self).unresolved().insert(old(self).current()),
                (Stage::Descriptor, Answer::Descriptor(Some(d))) => {
                    let addr = address_of(d.title@, d.author@);
                    if passes_filter(addr, old(self).patterns()) {
                        final(self).pos() == old(self).pos() && final(self).keeps(old(self), false, false, false, false)
                        && (final(self).stage() matches Stage::Geocode(x) && x@ == addr)
                    } else {
                        final(self).advanced(old(self)) && final(self).keeps(old(self), false, false, true, false)
                        && final(self).rejected() == old(self).rejected().insert(old(self).current())
                        && final(self).rejected_addresses() == old(self).rejected_addresses().push(addr)
                    }
                },
                (Stage::Geocode(_), Answer::Geocoded(Some(c))) =>
                    final(self).advanced(old(self)) && final(self).keeps(old(self), false, true, false, false)
                    && final(self).from_geocoding() == old(self).from_geocoding().insert(old(self).current(), c),
                (Stage::Geocode(_), Answer::Geocoded(None)) =>
                    final(self).advanced(old(self)) && final(self).keeps(old(self), false, false, false, true)
                    && final(self).unresolved() == old(self).unresolved().insert(old(self).current()),
                _ => false,
            },
    {
        if self.pos >= self.candidates.len() {
            return false;
        }
        let ghost pre = *self;
        proof { self.lemma_step(); }
        let id = self.candidates[self.pos].clone();
        match (&self.stage, a) {
            (Stage::Metadata, Answer::Metadata(Some(c))) => {
                self.from_metadata.insert(id, c);
                self.pos = self.pos + 1;
                proof { self.lemma_after(&pre); }
                true
            },
            (Stage::Metadata, Answer::Metadata(None)) => {
                self.stage = Stage::Descriptor;
                true
            },
            (Stage::Descriptor, Answer::Descriptor(None)) => {
                proof { lemma_id_set_push(self.unresolved@, id); }
                self.unresolved.push(id);
                self.stage = Stage::Metadata;
                self.pos = self.pos + 1;
                proof { self.lemma_after(&pre); }
                true
            },
            (Stage::Descriptor, Answer::Descriptor(Some(d))) => {
                let addr = make_address(&d);
                if is_live_camera(addr.as_str(), &self.patterns) {
                    self.stage = Stage::Geocode(addr);
                } else {
                    proof {
                        lemma_id_set_push(self.rejected@, id);
                        assert(ids_view(self.rejected_addresses@.push(addr)) =~= ids_view(self.rejected_addresses@).push(addr@));
                    }
                    self.rejected.push(id);
                    self.rejected_addresses.push(addr);
                    self.stage = Stage::Metadata;
                    self.pos = self.pos + 1;
                    proof { self.lemma_after(&pre); }
                }
                true
            },
            (Stage::Geocode(_), Answer::Geocoded(Some(c))) => {
                self.from_geocoding.insert(id, c);
                self.stage = Stage::Metadata;
                self.pos = self.pos + 1;
                proof { self.lemma_after(&pre); }
                true
            },
            (Stage::Geocode(_), Answer::Geocoded(None)) => {
                proof { lemma_id_set_push(self.unresolved@, id); }
                self.unresolved.push(id);
                self.stage = Stage::Metadata;
                self.pos = self.pos + 1;
                proof { self.lemma_after(&pre); }
                true
            },
            _ => false,
        }
    }

    /// After the current candidate of `pre` went into exactly one outcome, the state is
    /// well formed again.
    proof fn lemma_after(&self, pre: &Resolution)
        requires
            pre.wf(),
            pre.pos() < pre.candidates().len(),
            self.candidates@ == pre.candidates@,
            self.pos == pre.pos + 1,
            self.from_metadata.wf(),
            self.from_geocoding.wf(),
            id_set(pre.candidates@.take(pre.pos + 1)) == id_set(pre.candidates@.take(pre.pos as int)).insert(pre.current()),
            !id_set(pre.candidates@.take(pre.pos as int)).contains(pre.current()),
            ({
                let x = pre.current();
                let m0 = pre.from_metadata.view().dom();
                let g0 = pre.from_geocoding.view().dom();
                let r0 = id_set(pre.rejected@);
                let u0 = id_set(pre.unresolved@);
                let m1 = self.from_metadata.view().dom();
                let g1 = self.from_geocoding.view().dom();
                let r1 = id_set(self.rejected@);
                let u1 = id_set(self.unresolved@);
                (m1 == m0.insert(x) && g1 == g0 && r1 == r0 && u1 == u0)
                || (m1 == m0 && g1 == g0.insert(x) && r1 == r0 && u1 == u0)
                || (m1 == m0 && g1 == g0 && r1 == r0.insert(x) && u1 == u0)
                || (m1 == m0 && g1 == g0 && r1 == r0 && u1 == u0.insert(x))
            }),
        ensures
            self.wf(),
    {
        let m1 = self.from_metadata.view().dom();
        let g1 = self.from_geocoding.view().dom();
        let r1 = id_set(self.rejected@);
        let u1 = id_set(self.unresolved@);
        assert(m1.union(g1).union(r1).union(u1) =~= id_set(self.candidates@.take(self.pos as int)));
        assert(m1.disjoint(g1));
        assert(m1.disjoint(r1));
        assert(m1.disjoint(u1));
        assert(g1.disjoint(r1));
        assert(g1.disjoint(u1));
        assert(r1.disjoint(u1));
    }

    /// Ends the resolution and hands out its outcome.
    pub fn finish(self) -> (r: Outcome)
        requires
            self.wf(),
            self.pos() == self.candidates().len(),
        ensures
            r.from_metadata.wf(),
            r.from_geocoding.wf(),
            r.from_metadata.view() == self.from_metadata(),
            r.from_geocoding.view() == self.from_geocoding(),
            distinct_ids(r.blacklisted@),
            id_set(r.blacklisted@) == self.rejected().union(self.unresolved()),
            ids_view(r.rejected_addresses@) == self.rejected_addresses(),
            r.from_metadata.view().dom().union(r.from_geocoding.view().dom()).union(id_set(r.blacklisted@))
                == self.candidates().to_set(),
            r.from_metadata.view().dom().disjoint(r.from_geocoding.view().dom()),
            r.from_metadata.view().dom().disjoint(id_set(r.blacklisted@)),
            r.from_geocoding.view().dom().disjoint(id_set(r.blacklisted@)),
    {
        let blacklisted = union_ids(&self.rejected, &self.unresolved);
        proof {
            assert(self.candidates@.take(self.pos as int) =~= self.candidates@);
            assert(id_set(self.candidates@) =~= self.candidates().to_set());
        }
        Outcome {
            from_metadata: self.from_metadata,
            from_geocoding: self.from_geocoding,
            blacklisted,
            rejected_addresses: self.rejected_addresses,
        }
    }
}

/// What a finished resolution produced.
pub struct Outcome {
    /// Identifiers located by their platform metadata.
    pub from_metadata: LocationSet,
    /// Identifiers located by geocoding their address.
    pub from_geocoding: LocationSet,
    /// Identifiers given up on: content-filtered or unresolved.
    pub blacklisted: Vec<String>,
    /// The addresses that the content filter rejected.
    pub rejected_addresses: Vec<String>,
}

/// An identifier located at the first tier is never looked up again: in every state the
/// identifier under work, which every descriptor or geocoding request is for, is not
/// among those located from metadata.
pub proof fn lemma_metadata_skips_geocoding(r: &Resolution)
    requires
        r.wf(),
        r.pos() < r.candidates().len(),
    ensures
        !r.from_metadata().contains_key(r.current()),
{
    r.lemma_step();
}

} // verus!

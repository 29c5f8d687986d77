use vstd::prelude::*;
use crate::idset::{id_set, ids_view, lemma_id_set_push};
use crate::locset::LocationSet;
use crate::rotation::LookupError;

verus! {

/// The lookup that the revalidation needs next.
pub enum Check {
    /// Probe whether the stream's resource still exists.
    Exists(String),
    /// Fetch the stream's live-broadcast status.
    Status(String),
    Finished,
}

/// The answer to a check.
pub enum Observation {
    /// Whether the probed resource exists.
    Exists(bool),
    /// The live-broadcast status text, `None` when the answer held none, or the failure.
    Status(Result<Option<String>, LookupError>),
}

/// The status text of a stream that is broadcasting live.
pub open spec fn is_live_status(s: Seq<char>) -> bool {
    s == seq!['l', 'i', 'v', 'e']
}

/// Whether a live-broadcast status says that the stream is live.
pub fn status_is_live(s: &str) -> (r: bool)
    ensures
        r == is_live_status(s@),
{
    let cs = crate::words::chars_of(s);
    let r = cs.len() == 4 && cs[0] == 'l' && cs[1] == 'i' && cs[2] == 'v' && cs[3] == 'e';
    proof {
        if r {
            assert(cs@ =~= seq!['l', 'i', 'v', 'e']);
        }
    }
    r
}

/// Re-checks every identifier of a dataset, marking dead streams for removal; the
/// dataset itself is only changed afterwards, by `apply`.
pub struct Revalidation {
    ids: Vec<String>,
    pos: usize,
    probed: bool,
    marked: Vec<String>,
}

impl Revalidation {
    /// The identifiers to check, in order.
    pub closed spec fn ids(&self) -> Seq<Seq<char>> {
        ids_view(self.ids@)
    }

    /// How many identifiers are judged.
    pub closed spec fn pos(&self) -> nat {
        self.pos as nat
    }

    /// Whether the current identifier passed its existence probe.
    pub closed spec fn probed(&self) -> bool {
        self.probed
    }

    /// The identifiers marked for removal.
    pub closed spec fn marked(&self) -> Set<Seq<char>> {
        id_set(self.marked@)
    }

    pub closed spec fn wf(&self) -> bool {
        &&& self.pos <= self.ids@.len()
        &&& forall|x: Seq<char>| #[trigger] self.marked().contains(x) ==> exists|j: int| 0 <= j < self.pos && self.ids()[j] == x
    }

    /// The identifier under check.
    pub open spec fn current(&self) -> Seq<char> {
        self.ids()[self.pos() as int]
    }

    /// Starts a revalidation of every identifier of `locations`.
    pub fn new(locations: &LocationSet) -> (r: Revalidation)
        requires
            locations.wf(),
        ensures
            r.wf(),
            r.ids().to_set() == locations.view().dom(),
            r.pos() == 0,
            !r.probed(),
            r.marked().is_empty(),
    {
        let ids = locations.keys();
        let r = Revalidation { ids, pos: 0, probed: false, marked: Vec::new() };
        assert(id_set(r.marked@) =~= Set::empty());
        assert(r.marked().is_empty());
        assert(r.ids().to_set() =~= id_set(r.ids@));
        r
    }

    /// The check to make next.
    pub fn next_check(&self) -> (r: Check)
        requires
            self.wf(),
        ensures
            self.pos() == self.ids().len() ==> r is Finished,
            self.pos() < self.ids().len() && !self.probed() ==> (r matches Check::Exists(id) && id@ == self.current()),
            self.pos() < self.ids().len() && self.probed() ==> (r matches Check::Status(id) && id@ == self.current()),
    {
        if self.pos == self.ids.len() {
            return Check::Finished;
        }
        proof { assert(ids_view(self.ids@)[self.pos as int] == self.ids@[self.pos as int]@); }
        if self.probed {
            Check::Status(self.ids[self.pos].clone())
        } else {
            Check::Exists(self.ids[self.pos].clone())
        }
    }

    /// Takes in the answer to the current check. A missing resource, or a status other
    /// than "live" or a failed status fetch, marks the identifier for removal; a status of
    /// "live" keeps it. A quota error is returned, and changes nothing, so that the run
    /// stops before anything is removed. An answer that does not fit the current check
    /// is refused with `Ok(false)` and changes nothing.
    pub fn observe(&mut self, o: Observation) -> (r: Result<bool, LookupError>)
        requires
            old(self).wf(),
        ensures
            final(self).wf(),
            final(self).ids() == old(self).ids(),
            !(r == Ok::<bool, LookupError>(true)) ==> *final(self) == *old(self),
            r == Ok::<bool, LookupError>(true) <==> (old(self).pos() < old(self).ids().len() && match o {
                Observation::Exists(_) => !old(self).probed(),
                Observation::Status(Err(LookupError::QuotaExhausted)) => false,
                Observation::Status(_) => old(self).probed(),
            }),
            r is Err <==> (old(self).pos() < old(self).ids().len() && old(self).probed()
                && o == Observation::Status(Err(LookupError::QuotaExhausted))),
            r is Err ==> r == Err::<bool, LookupError>(LookupError::QuotaExhausted),
            r == Ok::<bool, LookupError>(true) ==> match o {
                Observation::Exists(true) => final(self).pos() == old(self).pos() && final(self).probed()
                    && final(self).marked() == old(self).marked(),
                Observation::Exists(false) => final(self).pos() == old(self).pos() + 1 && !final(self).probed()
                    && final(self).marked() == old(self).marked().insert(old(self).current()),
                Observation::Status(Ok(Some(s))) => final(self).pos() == old(self).pos() + 1 && !final(self).probed()
                    && final(self).marked() == if is_live_status(s@) {
                        old(self).marked()
                    } else {
                        old(self).marked().insert(old(self).current())
                    },
                Observation::Status(_) => final(self).pos() == old(self).pos() + 1 && !final(self).probed()
                    && final(self).marked() == old(self).marked().insert(old(self).current()),
            },
    {
        if self.pos >= self.ids.len() {
            return Ok(false);
        }
        let ghost pre = *self;
        let dead = match o {
            Observation::Exists(found) => {
                if self.probed {
                    return Ok(false);
                }
                if found {
                    self.probed = true;
                    proof {
                        assert(self.marked() == pre.marked());
                        assert(self.ids() == pre.ids());
                        assert forall|x: Seq<char>| #[trigger] self.marked().contains(x) implies exists|j: int| 0 <= j < self.pos && self.ids()[j] == x by {
                            assert(pre.marked().contains(x));
                        }
                    }
                    return Ok(true);
                }
                true
            },
            Observation::Status(st) => {
                if !self.probed {
                    return Ok(false);
                }
                match st {
                    Err(LookupError::QuotaExhausted) => {
                        return Err(LookupError::QuotaExhausted);
                    },
                    Err(LookupError::Transport(_)) => true,
                    Ok(None) => true,
                    Ok(Some(s)) => !status_is_live(s.as_str()),
                }
            },
        };
        proof {
            assert(ids_view(self.ids@)[self.pos as int] == self.ids@[self.pos as int]@);
        }
        if dead {
            proof { lemma_id_set_push(self.marked@, self.ids@[self.pos as int]); }
            self.marked.push(self.ids[self.pos].clone());
        }
        self.pos = self.pos + 1;
        self.probed = false;
        proof {
            assert forall|x: Seq<char>| #[trigger] self.marked().contains(x) implies exists|j: int| 0 <= j < self.pos && self.ids()[j] == x by {
                if pre.marked().contains(x) {
                    let j = choose|j: int| 0 <= j < pre.pos && pre.ids()[j] == x;
                    assert(0 <= j < self.pos && self.ids()[j] == x);
                } else {
                    assert(self.ids()[pre.pos as int] == x);
                }
            }
        }
        Ok(true)
    }

    /// Whether every identifier is judged.
    pub fn is_finished(&self) -> (r: bool)
        requires
            self.wf(),
        ensures
            r == (self.pos() == self.ids().len()),
    {
        self.pos == self.ids.len()
    }

    /// Removes the marked identifiers from the dataset, once every identifier is judged.
    pub fn apply(self, locations: &mut LocationSet)
        requires
            self.wf(),
            old(locations).wf(),
        ensures
            final(locations).wf(),
            final(locations).view() == old(locations).view().remove_keys(self.marked()),
    {
        locations.remove_all(&self.marked);
    }
}

} // verus!

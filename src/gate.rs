use vstd::prelude::*;
use crate::cascade::Outcome;
use crate::coord::Coordinate;
use crate::idset::{contains_id, distinct_ids, id_set, insert_id, lemma_id_set_take_step};
use crate::locset::LocationSet;

verus! {

/// Why a run stopped without writing its output.
#[derive(Debug, PartialEq, Eq)]
pub enum RunError {
    /// The final dataset holds fewer than half the entries it started with.
    ShrinkGuardViolation { prior: usize, last: usize },
}

/// The final count keeps at least half of the starting count.
pub open spec fn keeps_half(prior: nat, last: nat) -> bool {
    2 * last >= prior
}

/// The safety check before anything is written: fails when the final dataset holds fewer
/// than half the entries the run started with.
pub fn shrink_guard(prior: usize, last: usize) -> (r: Result<(), RunError>)
    ensures
        r is Ok <==> keeps_half(prior as nat, last as nat),
        r is Err ==> r == Err::<(), RunError>(RunError::ShrinkGuardViolation { prior, last }),
{
    if (last as u128) * 2 >= prior as u128 {
        Ok(())
    } else {
        Err(RunError::ShrinkGuardViolation { prior, last })
    }
}

/// The candidates worth resolving: discovered identifiers that are neither blacklisted
/// nor already located, each once.
pub fn exclude_known(discovered: &Vec<String>, blacklist: &Vec<String>, located: &LocationSet) -> (r: Vec<String>)
    requires
        located.wf(),
    ensures
        distinct_ids(r@),
        id_set(r@) == id_set(discovered@).difference(id_set(blacklist@)).difference(located.view().dom()),
{
    let mut r: Vec<String> = Vec::new();
    assert(id_set(r@) =~= Set::empty());
    let mut i: usize = 0;
    while i < discovered.len()
        invariant
            i <= discovered@.len(),
            located.wf(),
            distinct_ids(r@),
            id_set(r@) == id_set(discovered@.take(i as int)).difference(id_set(blacklist@)).difference(
                located.view().dom(),
            ),
        decreases discovered@.len() - i,
    {
        proof { lemma_id_set_take_step(discovered@, i as int); }
        let id = &discovered[i];
        if !contains_id(blacklist, id) && !located.contains(id) {
            insert_id(&mut r, id.clone());
        }
        i = i + 1;
        assert(id_set(r@) =~= id_set(discovered@.take(i as int)).difference(id_set(blacklist@)).difference(
            located.view().dom(),
        ));
    }
    assert(discovered@.take(i as int) =~= discovered@);
    r
}

/// Adds every coordinate of `from` to `into`; those of `from` win.
pub fn extend_locations(into: &mut LocationSet, from: &LocationSet)
    requires
        old(into).wf(),
        from.wf(),
    ensures
        final(into).wf(),
        final(into).view() == old(into).view().union_prefer_right(from.view()),
{
    let ghost start = into.view();
    let keys = from.keys();
    let mut i: usize = 0;
    while i < keys.len()
        invariant
            into.wf(),
            from.wf(),
            i <= keys@.len(),
            id_set(keys@) == from.view().dom(),
            into.view() == start.union_prefer_right(from.view().restrict(id_set(keys@.take(i as int)))),
        decreases keys@.len() - i,
    {
        proof { lemma_id_set_take_step(keys@, i as int); }
        assert(id_set(keys@).contains(keys@[i as int]@)) by {
            assert(crate::idset::ids_view(keys@)[i as int] == keys@[i as int]@);
        }
        let c = from.get(&keys[i]);
        match c {
            Some(c) => {
                into.insert(keys[i].clone(), c);
            },
            None => {},
        }
        i = i + 1;
        assert(into.view() =~= start.union_prefer_right(from.view().restrict(id_set(keys@.take(i as int)))));
    }
    assert(keys@.take(i as int) =~= keys@);
    assert(from.view().restrict(id_set(keys@)) =~= from.view());
}

/// Adds each identifier of `from` to `into`, keeping each once.
pub fn extend_ids(into: &mut Vec<String>, from: &Vec<String>)
    requires
        distinct_ids(old(into)@),
    ensures
        distinct_ids(final(into)@),
        id_set(final(into)@) == id_set(old(into)@).union(id_set(from@)),
{
    let ghost start = id_set(into@);
    let mut i: usize = 0;
    while i < from.len()
        invariant
            i <= from@.len(),
            distinct_ids(into@),
            id_set(into@) == start.union(id_set(from@.take(i as int))),
        decreases from@.len() - i,
    {
        proof { lemma_id_set_take_step(from@, i as int); }
        insert_id(into, from[i].clone());
        i = i + 1;
        assert(id_set(into@) =~= start.union(id_set(from@.take(i as int))));
    }
    assert(from@.take(i as int) =~= from@);
}

/// Merges what the resolution found into the dataset and the blacklist.
pub fn merge_outcome(locations: &mut LocationSet, blacklist: &mut Vec<String>, outcome: &Outcome)
    requires
        old(locations).wf(),
        distinct_ids(old(blacklist)@),
        outcome.from_metadata.wf(),
        outcome.from_geocoding.wf(),
    ensures
        final(locations).wf(),
        distinct_ids(final(blacklist)@),
        final(locations).view() == old(locations).view().union_prefer_right(
            outcome.from_metadata.view(),
        ).union_prefer_right(outcome.from_geocoding.view()),
        id_set(final(blacklist)@) == id_set(old(blacklist)@).union(id_set(outcome.blacklisted@)),
{
    extend_locations(locations, &outcome.from_metadata);
    extend_locations(locations, &outcome.from_geocoding);
    extend_ids(blacklist, &outcome.blacklisted);
}


/// A discovery run leaves the dataset and the blacklist disjoint when they were disjoint
/// at its start: what is resolved comes from the candidates, which exclude both, and each
/// candidate is either located or given up on.
pub proof fn lemma_discovery_disjoint(
    prior: Map<Seq<char>, Coordinate>,
    black: Set<Seq<char>>,
    discovered: Set<Seq<char>>,
    meta: Map<Seq<char>, Coordinate>,
    geo: Map<Seq<char>, Coordinate>,
    given_up: Set<Seq<char>>,
)
    requires
        prior.dom().disjoint(black),
        meta.dom().union(geo.dom()).union(given_up) == discovered.difference(black).difference(prior.dom()),
        meta.dom().disjoint(given_up),
        geo.dom().disjoint(given_up),
    ensures
        prior.union_prefer_right(meta).union_prefer_right(geo).dom().disjoint(black.union(given_up)),
{
    let all = meta.dom().union(geo.dom()).union(given_up);
    assert forall|x: Seq<char>| prior.union_prefer_right(meta).union_prefer_right(geo).dom().contains(x)
        implies !black.union(given_up).contains(x) by {
        if meta.dom().contains(x) || geo.dom().contains(x) {
            assert(all.contains(x));
        } else {
            if given_up.contains(x) {
                assert(all.contains(x));
            }
        }
    }
}

/// A revalidation run leaves the dataset and the blacklist disjoint when they were
/// disjoint at its start: it only removes identifiers from the dataset.
pub proof fn lemma_revalidation_disjoint(prior: Map<Seq<char>, Coordinate>, black: Set<Seq<char>>, gone: Set<Seq<char>>)
    requires
        prior.dom().disjoint(black),
    ensures
        prior.remove_keys(gone).dom().disjoint(black),
{
}

} // verus!

use vstd::prelude::*;

verus! {

/// The identifiers of a vector of strings, as character sequences.
pub open spec fn ids_view(v: Seq<String>) -> Seq<Seq<char>> {
    v.map_values(|s: String| s@)
}

/// The set of identifiers that a vector holds.
pub open spec fn id_set(v: Seq<String>) -> Set<Seq<char>> {
    Set::new(|x: Seq<char>| ids_view(v).contains(x))
}

/// A vector of identifiers that holds each identifier at most once.
pub open spec fn distinct_ids(v: Seq<String>) -> bool {
    ids_view(v).no_duplicates()
}

/// Whether `id` occurs in `v`.
pub fn contains_id(v: &Vec<String>, id: &String) -> (r: bool)
    ensures
        r == id_set(v@).contains(id@),
{
    let mut i: usize = 0;
    while i < v.len()
        invariant
            i <= v.len(),
            forall|j: int| 0 <= j < i ==> v@[j]@ != id@,
        decreases v.len() - i,
    {
        if v[i] == *id {
            assert(ids_view(v@)[i as int] == id@);
            return true;
        }
        i = i + 1;
    }
    proof {
        if ids_view(v@).contains(id@) {
            let j = choose|j: int| 0 <= j < ids_view(v@).len() && ids_view(v@)[j] == id@;
            assert(v@[j]@ == id@);
        }
    }
    false
}

/// Adds `id` to `v` unless it is already there.
pub fn insert_id(v: &mut Vec<String>, id: String)
    requires
        distinct_ids(old(v)@),
    ensures
        distinct_ids(final(v)@),
        id_set(final(v)@) == id_set(old(v)@).insert(id@),
{
    if !contains_id(v, &id) {
        let ghost pre = v@;
        v.push(id);
        proof {
            assert(ids_view(v@) =~= ids_view(pre).push(id@));
            assert(id_set(v@) =~= id_set(pre).insert(id@)) by {
                assert forall|x: Seq<char>| ids_view(v@).contains(x) <==> (ids_view(pre).contains(x)
                    || x == id@) by {
                    if ids_view(pre).contains(x) {
                        let j = choose|j: int| 0 <= j < ids_view(pre).len() && ids_view(pre)[j] == x;
                        assert(ids_view(v@)[j] == x);
                    }
                    if x == id@ {
                        assert(ids_view(v@)[pre.len() as int] == x);
                    }
                }
            }
        }
    } else {
        assert(id_set(v@) =~= id_set(v@).insert(id@));
    }
}

/// The union of two identifier collections, each identifier once.
pub fn union_ids(a: &Vec<String>, b: &Vec<String>) -> (r: Vec<String>)
    ensures
        distinct_ids(r@),
        id_set(r@) == id_set(a@).union(id_set(b@)),
{
    let mut r: Vec<String> = Vec::new();
    assert(id_set(r@) =~= Set::empty());
    let mut i: usize = 0;
    while i < a.len()
        invariant
            i <= a.len(),
            distinct_ids(r@),
            id_set(r@) == id_set(a@.take(i as int)),
        decreases a.len() - i,
    {
        insert_id(&mut r, a[i].clone());
        proof { lemma_id_set_take_step(a@, i as int); }
        i = i + 1;
    }
    assert(a@.take(a.len() as int) =~= a@);
    let mut k: usize = 0;
    while k < b.len()
        invariant
            k <= b.len(),
            distinct_ids(r@),
            id_set(r@) == id_set(a@).union(id_set(b@.take(k as int))),
        decreases b.len() - k,
    {
        proof { lemma_id_set_take_step(b@, k as int); }
        insert_id(&mut r, b[k].clone());
        k = k + 1;
        assert(id_set(r@) =~= id_set(a@).union(id_set(b@.take(k as int))));
    }
    assert(b@.take(b.len() as int) =~= b@);
    r
}

/// Taking one more element of `v` adds that element's identifier.
pub proof fn lemma_id_set_take_step(v: Seq<String>, i: int)
    requires
        0 <= i < v.len(),
    ensures
        id_set(v.take(i + 1)) == id_set(v.take(i)).insert(v[i]@),
{
    let p = v.take(i);
    let q = v.take(i + 1);
    assert(q =~= p.push(v[i]));
    assert(ids_view(q) =~= ids_view(p).push(v[i]@));
    assert forall|x: Seq<char>| ids_view(q).contains(x) <==> (ids_view(p).contains(x) || x
        == v[i]@) by {
        if ids_view(p).contains(x) {
            let j = choose|j: int| 0 <= j < ids_view(p).len() && ids_view(p)[j] == x;
            assert(ids_view(q)[j] == x);
        }
        if x == v[i]@ {
            assert(ids_view(q)[i] == x);
        }
    }
    assert(id_set(q) =~= id_set(p).insert(v[i]@));
}


/// Pushing a string adds its identifier.
pub proof fn lemma_id_set_push(v: Seq<String>, s: String)
    ensures
        id_set(v.push(s)) == id_set(v).insert(s@),
{
    assert(v.push(s).take(v.len() as int) =~= v);
    assert(v.push(s).take(v.len() as int + 1) =~= v.push(s));
    lemma_id_set_take_step(v.push(s), v.len() as int);
}

/// The element at position `i` of a vector without repeats is not among those before it.
pub proof fn lemma_distinct_fresh(v: Seq<String>, i: int)
    requires
        distinct_ids(v),
        0 <= i < v.len(),
    ensures
        !id_set(v.take(i)).contains(v[i]@),
{
    if id_set(v.take(i)).contains(v[i]@) {
        let j = choose|j: int| 0 <= j < ids_view(v.take(i)).len() && ids_view(v.take(i))[j] == v[i]@;
        assert(ids_view(v)[j] == ids_view(v)[i]);
    }
}

} // verus!

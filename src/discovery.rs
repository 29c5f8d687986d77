use vstd::prelude::*;
use crate::idset::{distinct_ids, id_set, union_ids};

verus! {

/// The pattern that finds a watch address in a snippet; its group is the identifier.
pub const WATCH_PATTERN: &'static str = r"www\.youtube\.com/watch\?v=(.{11})";

/// The highest start index that the feed scan asks for.
pub const PAGE_CEILING: i64 = 100;

/// The literal text that precedes an identifier in a watch address.
pub open spec fn watch_prefix() -> Seq<char> {
    seq!['w', 'w', 'w', '.', 'y', 'o', 'u', 't', 'u', 'b', 'e', '.', 'c', 'o', 'm', '/', 'w', 'a', 't', 'c', 'h', '?', 'v', '=']
}

/// A watch address starts at position `i` of `t`: the prefix, then eleven characters
/// none of which is a line feed.
pub open spec fn watch_at(t: Seq<char>, i: int) -> bool {
    &&& 0 <= i && i + 35 <= t.len()
    &&& t.subrange(i, i + 24) == watch_prefix()
    &&& forall|k: int| i + 24 <= k < i + 35 ==> t[k] != '\n'
}

/// The identifier of the leftmost watch address in `t`, if there is one.
#[verifier::opaque]
pub open spec fn watch_id_spec(t: Seq<char>) -> Option<Seq<char>> {
    if exists|i: int| watch_at(t, i) {
        let i = choose|i: int| watch_at(t, i) && forall|j: int| 0 <= j < i ==> !watch_at(t, j);
        Some(t.subrange(i + 24, i + 35))
    } else {
        None
    }
}

/// Relies on regex::Regex::new and Regex::captures: with the watch pattern, the first
/// group of the leftmost match. `.` matches any character but a line feed.
#[verifier::external_body]
fn first_capture(pattern: &str, text: &str) -> (r: Option<String>)
    requires
        pattern@ == WATCH_PATTERN@,
    ensures
        r matches Some(s) ==> watch_id_spec(text@) == Some(s@),
        r is None ==> watch_id_spec(text@) is None,
{
    match regex::Regex::new(pattern) {
        Ok(re) => match re.captures(text) {
            Some(caps) => match caps.get(1) {
                Some(m) => Some(m.as_str().to_string()),
                None => None,
            },
            None => None,
        },
        Err(_) => None,
    }
}

/// The identifier named by the first watch address in a snippet, if any.
pub fn watch_id(snippet: &str) -> (r: Option<String>)
    ensures
        r matches Some(s) ==> watch_id_spec(snippet@) == Some(s@),
        r is None ==> watch_id_spec(snippet@) is None,
{
    first_capture(WATCH_PATTERN, snippet)
}

/// The identifiers that the snippets name.
pub open spec fn named_ids(snippets: Seq<String>) -> Set<Seq<char>> {
    Set::new(|x: Seq<char>| exists|i: int| 0 <= i < snippets.len() && watch_id_spec(#[trigger] snippets[i]@) == Some(x))
}

/// The identifiers that a page of snippets names, each once.
pub fn watch_ids(snippets: &Vec<String>) -> (r: Vec<String>)
    ensures
        distinct_ids(r@),
        id_set(r@) == named_ids(snippets@),
{
    let mut r: Vec<String> = Vec::new();
    let mut i: usize = 0;
    assert(id_set(r@) =~= named_ids(snippets@.take(0)));
    while i < snippets.len()
        invariant
            i <= snippets@.len(),
            distinct_ids(r@),
            id_set(r@) == named_ids(snippets@.take(i as int)),
        decreases snippets@.len() - i,
    {
        let ghost before = snippets@.take(i as int);
        let ghost after = snippets@.take(i + 1);
        match watch_id(snippets[i].as_str()) {
            Some(id) => {
                crate::idset::insert_id(&mut r, id);
            },
            None => {},
        }
        proof {
            assert forall|x: Seq<char>| #[trigger] named_ids(after).contains(x) <==> (named_ids(before).contains(x)
                || watch_id_spec(snippets@[i as int]@) == Some(x)) by {
                if named_ids(after).contains(x) {
                    let j = choose|j: int| 0 <= j < after.len() && watch_id_spec(#[trigger] after[j]@) == Some(x);
                    if j < i {
                        assert(before[j] == after[j]);
                    }
                }
                if named_ids(before).contains(x) {
                    let j = choose|j: int| 0 <= j < before.len() && watch_id_spec(#[trigger] before[j]@) == Some(x);
                    assert(before[j] == after[j]);
                }
                if watch_id_spec(snippets@[i as int]@) == Some(x) {
                    assert(after[i as int] == snippets@[i as int]);
                }
            }
        }
        i = i + 1;
        assert(id_set(r@) =~= named_ids(snippets@.take(i as int)));
    }
    assert(snippets@.take(i as int) =~= snippets@);
    r
}

/// The start index of the next page of the feed, or `None` when the scan is over: when
/// the next page would begin past the total, or past the ceiling.
pub fn next_page_start(start_index: i32, count: i32, total: i64) -> (r: Option<i64>)
    ensures
        r == (if start_index + count > total || start_index + count > PAGE_CEILING {
            None::<i64>
        } else {
            Some((start_index + count) as i64)
        }),
{
    let next = start_index as i64 + count as i64;
    if next > total || next > PAGE_CEILING {
        None
    } else {
        Some(next)
    }
}

/// The value of a string of decimal digits.
pub open spec fn digits_value(s: Seq<char>) -> int
    decreases s.len(),
{
    if s.len() == 0 {
        0
    } else {
        10 * digits_value(s.drop_last()) + (s.last() as int - '0' as int)
    }
}

/// Every character is a decimal digit.
pub open spec fn all_digits(s: Seq<char>) -> bool {
    forall|k: int| 0 <= k < s.len() ==> '0' <= #[trigger] s[k] && s[k] <= '9'
}

/// Reads the feed's total count, given as a string of at most eighteen decimal digits.
pub fn parse_count(s: &str) -> (r: Option<i64>)
    ensures
        r is Some <==> (0 < s@.len() <= 18 && all_digits(s@)),
        r matches Some(v) ==> v == digits_value(s@),
{
    let cs = crate::words::chars_of(s);
    if cs.len() == 0 || cs.len() > 18 {
        return None;
    }
    let mut v: i64 = 0;
    let mut i: usize = 0;
    while i < cs.len()
        invariant
            cs@ == s@,
            0 < cs@.len() <= 18,
            i <= cs@.len(),
            all_digits(cs@.take(i as int)),
            v == digits_value(cs@.take(i as int)),
            0 <= v < pow10(i as nat),
        decreases cs@.len() - i,
    {
        let c = cs[i];
        if c < '0' || c > '9' {
            assert(!all_digits(s@)) by {
                assert(!('0' <= s@[i as int] && s@[i as int] <= '9'));
            }
            return None;
        }
        assert(cs@.take(i + 1).drop_last() =~= cs@.take(i as int));
        proof { lemma_pow10_bound(i as nat); }
        v = v * 10 + (c as u32 - '0' as u32) as i64;
        i = i + 1;
        assert(all_digits(cs@.take(i as int))) by {
            assert forall|k: int| 0 <= k < cs@.take(i as int).len() implies '0' <= #[trigger] cs@.take(i as int)[k] && cs@.take(i as int)[k] <= '9' by {
                if k < i - 1 {
                    assert(cs@.take(i as int)[k] == cs@.take(i - 1)[k]);
                }
            }
        }
    }
    assert(cs@.take(i as int) =~= cs@);
    Some(v)
}

/// Ten to the power `n`.
pub open spec fn pow10(n: nat) -> int
    decreases n,
{
    if n == 0 { 1 } else { 10 * pow10((n - 1) as nat) }
}

proof fn lemma_pow10_mono(n: nat, m: nat)
    requires
        n <= m,
    ensures
        0 < pow10(n) <= pow10(m),
    decreases m,
{
    if n < m {
        lemma_pow10_mono(n, (m - 1) as nat);
    } else if n > 0 {
        lemma_pow10_mono((n - 1) as nat, (n - 1) as nat);
    }
}

proof fn lemma_pow10_bound(n: nat)
    requires
        n < 18,
    ensures
        10 * pow10(n) <= 1_000_000_000_000_000_000,
{
    lemma_pow10_mono(n, 17);
    reveal_with_fuel(pow10, 18);
}

/// Every identifier that either source found, each once: the search results of every
/// query and the identifiers of the feed scan.
pub fn discover(searches: &Vec<Vec<String>>, feed: &Vec<String>) -> (r: Vec<String>)
    ensures
        distinct_ids(r@),
        forall|x: Seq<char>| #[trigger] id_set(r@).contains(x) <==> (id_set(feed@).contains(x)
            || exists|q: int| 0 <= q < searches@.len() && id_set(#[trigger] searches@[q]@).contains(x)),
{
    let none: Vec<String> = Vec::new();
    let mut r = union_ids(feed, &none);
    let mut q: usize = 0;
    while q < searches.len()
        invariant
            q <= searches@.len(),
            distinct_ids(r@),
            forall|x: Seq<char>| #[trigger] id_set(r@).contains(x) <==> (id_set(feed@).contains(x)
                || exists|p: int| 0 <= p < q && id_set(#[trigger] searches@[p]@).contains(x)),
        decreases searches@.len() - q,
    {
        let ghost before = id_set(r@);
        r = union_ids(&r, &searches[q]);
        assert forall|x: Seq<char>| #[trigger] id_set(r@).contains(x) <==> (id_set(feed@).contains(x)
            || exists|p: int| 0 <= p < q + 1 && id_set(#[trigger] searches@[p]@).contains(x)) by {
            if exists|p: int| 0 <= p < q + 1 && id_set(#[trigger] searches@[p]@).contains(x) {
                let p = choose|p: int| 0 <= p < q + 1 && id_set(#[trigger] searches@[p]@).contains(x);
                if p < q {
                    assert(before.contains(x));
                }
            }
            if id_set(r@).contains(x) && !before.contains(x) {
                assert(id_set(searches@[q as int]@).contains(x));
            }
        }
        q = q + 1;
    }
    r
}

} // verus!

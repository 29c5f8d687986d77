use vstd::prelude::*;

verus! {

/// Characters with the Unicode `White_Space` property.
pub open spec fn is_ws(c: char) -> bool {
    ('\t' <= c && c <= '\r') || c == ' ' || c == '\u{85}' || c == '\u{a0}' || c == '\u{1680}'
        || ('\u{2000}' <= c && c <= '\u{200a}') || c == '\u{2028}' || c == '\u{2029}'
        || c == '\u{202f}' || c == '\u{205f}' || c == '\u{3000}'
}

/// `s[a..b]` is one whitespace-delimited word of `s`.
pub open spec fn is_word_at(s: Seq<char>, a: int, b: int) -> bool {
    &&& 0 <= a < b <= s.len()
    &&& forall|k: int| a <= k < b ==> !is_ws(#[trigger] s[k])
    &&& a == 0 || is_ws(s[a - 1])
    &&& b == s.len() || is_ws(s[b])
}

/// `w` occurs in `h` as a contiguous piece.
pub open spec fn occurs_in(w: Seq<char>, h: Seq<char>) -> bool {
    exists|k: int| 0 <= k && k + w.len() <= h.len() && #[trigger] h.subrange(k, k + w.len()) == w
}

/// Every whitespace-delimited word of `needle` occurs in `haystack`, in any order.
pub open spec fn has_all_words(haystack: Seq<char>, needle: Seq<char>) -> bool {
    forall|a: int, b: int| #[trigger] is_word_at(needle, a, b) ==> occurs_in(needle.subrange(a, b), haystack)
}

/// An address passes the content filter when no pattern has all its words in it.
pub open spec fn passes_filter(address: Seq<char>, patterns: Seq<String>) -> bool {
    !exists|p: int| 0 <= p < patterns.len() && has_all_words(address, #[trigger] patterns[p]@)
}

/// Relies on str::chars, collected into a vector: the characters of `s` in order.
#[verifier::external_body]
pub(crate) fn chars_of(s: &str) -> (r: Vec<char>)
    ensures
        r@ == s@,
{
    s.chars().collect()
}

/// Whether `c` has the Unicode `White_Space` property.
pub fn is_whitespace(c: char) -> (r: bool)
    ensures
        r == is_ws(c),
{
    ('\t' <= c && c <= '\r') || c == ' ' || c == '\u{85}' || c == '\u{a0}' || c == '\u{1680}'
        || ('\u{2000}' <= c && c <= '\u{200a}') || c == '\u{2028}' || c == '\u{2029}'
        || c == '\u{202f}' || c == '\u{205f}' || c == '\u{3000}'
}

fn matches_at(h: &Vec<char>, k: usize, n: &Vec<char>, a: usize, b: usize) -> (r: bool)
    requires
        a <= b <= n@.len(),
        k + (b - a) <= h@.len(),
    ensures
        r == (h@.subrange(k as int, k + (b - a)) == n@.subrange(a as int, b as int)),
{
    let hl = h.len();
    let mut t: usize = 0;
    assert(h@.subrange(k as int, k as int) =~= n@.subrange(a as int, a as int));
    while t < b - a
        invariant
            a <= b <= n@.len(),
            k + (b - a) <= h@.len(),
            hl == h@.len(),
            t <= b - a,
            h@.subrange(k as int, k + t) == n@.subrange(a as int, a + t),
        decreases b - a - t,
    {
        assert(k + t < h@.len());
        if h[k + t] != n[a + t] {
            assert(h@.subrange(k as int, k + (b - a))[t as int] != n@.subrange(a as int, b as int)[t as int]);
            return false;
        }
        assert(h@.subrange(k as int, k + t + 1) =~= h@.subrange(k as int, k + t).push(h@[k + t]));
        assert(n@.subrange(a as int, a + t + 1) =~= n@.subrange(a as int, a + t).push(n@[a + t]));
        t = t + 1;
    }
    assert(h@.subrange(k as int, k + (b - a)) =~= n@.subrange(a as int, b as int));
    true
}

fn occurs(h: &Vec<char>, n: &Vec<char>, a: usize, b: usize) -> (r: bool)
    requires
        a <= b <= n@.len(),
    ensures
        r == occurs_in(n@.subrange(a as int, b as int), h@),
{
    let w = b - a;
    if w > h.len() {
        return false;
    }
    if w == 0 {
        assert(h@.subrange(0, 0) =~= n@.subrange(a as int, b as int));
        assert(h@.subrange(0int, 0int + n@.subrange(a as int, b as int).len()) == n@.subrange(a as int, b as int));
        return true;
    }
    let mut k: usize = 0;
    while k <= h.len() - w
        invariant
            a <= b <= n@.len(),
            w == b - a,
            w <= h@.len(),
            k <= h@.len() - w + 1,
            w > 0,
            forall|j: int| 0 <= j < k ==> #[trigger] h@.subrange(j, j + w) != n@.subrange(a as int, b as int),
        decreases h@.len() + 1 - k,
    {
        if matches_at(h, k, n, a, b) {
            assert(h@.subrange(k as int, k + n@.subrange(a as int, b as int).len()) == n@.subrange(a as int, b as int));
            return true;
        }
        k = k + 1;
    }
    assert(n@.subrange(a as int, b as int).len() == w);
    false
}

/// Whether every whitespace-delimited word of `needle` occurs in `haystack`.
pub fn contains_all_words(haystack: &str, needle: &str) -> (r: bool)
    ensures
        r == has_all_words(haystack@, needle@),
{
    let h = chars_of(haystack);
    let n = chars_of(needle);
    let len = n.len();
    let mut i: usize = 0;
    while i < len
        invariant
            len == n@.len(),
            h@ == haystack@,
            n@ == needle@,
            i <= len,
            i < len && !is_ws(n@[i as int]) ==> (i == 0 || is_ws(n@[i - 1])),
            forall|a: int, b: int| #[trigger] is_word_at(n@, a, b) && a < i ==> occurs_in(n@.subrange(a, b), h@),
        decreases len - i,
    {
        if is_whitespace(n[i]) {
            i = i + 1;
        } else {
            let start = i;
            let mut end = i + 1;
            while end < len && !is_whitespace(n[end])
                invariant
                    len == n@.len(),
                    start < end <= len,
                    forall|k: int| start <= k < end ==> !is_ws(#[trigger] n@[k]),
                decreases len - end,
            {
                end = end + 1;
            }
            assert(is_word_at(n@, start as int, end as int));
            if !occurs(&h, &n, start, end) {
                return false;
            }
            assert forall|a: int, b: int| #[trigger] is_word_at(n@, a, b) && a < end implies occurs_in(n@.subrange(a, b), h@) by {
                if a >= start {
                    if a > start {
                        assert(!is_ws(n@[a - 1]));
                    }
                    if b < end {
                        assert(!is_ws(n@[b]));
                    }
                    if b > end {
                        assert(!is_ws(n@[end as int]));
                    }
                }
            }
            i = end;
        }
    }
    true
}

/// Whether an address passes the content filter: no pattern has all its words in it.
pub fn is_live_camera(address: &str, patterns: &Vec<String>) -> (r: bool)
    ensures
        r == passes_filter(address@, patterns@),
{
    let mut p: usize = 0;
    while p < patterns.len()
        invariant
            p <= patterns@.len(),
            forall|q: int| 0 <= q < p ==> !has_all_words(address@, #[trigger] patterns@[q]@),
        decreases patterns@.len() - p,
    {
        if contains_all_words(address, patterns[p].as_str()) {
            return false;
        }
        p = p + 1;
    }
    true
}

} // verus!

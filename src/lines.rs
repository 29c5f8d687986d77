use vstd::prelude::*;
use vstd::string::StringExecFns;
use crate::idset::ids_view;

verus! {

/// Reading a newline-delimited text from the left: the non-empty lines completed so
/// far, and the line being read.
pub open spec fn line_state(t: Seq<char>) -> (Seq<Seq<char>>, Seq<char>)
    decreases t.len(),
{
    if t.len() == 0 {
        (Seq::empty(), Seq::empty())
    } else {
        let (done, cur) = line_state(t.drop_last());
        if t.last() == '\n' {
            if cur.len() > 0 { (done.push(cur), Seq::empty()) } else { (done, cur) }
        } else {
            (done, cur.push(t.last()))
        }
    }
}

/// The non-empty lines of a newline-delimited text, in order.
pub open spec fn lines_spec(t: Seq<char>) -> Seq<Seq<char>> {
    let (done, cur) = line_state(t);
    if cur.len() > 0 { done.push(cur) } else { done }
}

/// Each line followed by a line feed.
pub open spec fn joined(ls: Seq<Seq<char>>) -> Seq<char>
    decreases ls.len(),
{
    if ls.len() == 0 {
        Seq::empty()
    } else {
        joined(ls.drop_last()) + ls.last() + seq!['\n']
    }
}

/// A line that can be written and read back: not empty, without a line feed.
pub open spec fn is_plain_line(l: Seq<char>) -> bool {
    l.len() > 0 && !l.contains('\n')
}

/// Relies on String's FromIterator<char>: the characters in order.
#[verifier::external_body]
fn string_of(cs: &Vec<char>) -> (r: String)
    ensures
        r@ == cs@,
{
    cs.iter().collect()
}

/// The non-empty lines of a newline-delimited text.
pub fn lines_of(text: &str) -> (r: Vec<String>)
    ensures
        ids_view(r@) == lines_spec(text@),
{
    let cs = crate::words::chars_of(text);
    let mut out: Vec<String> = Vec::new();
    let mut cur: Vec<char> = Vec::new();
    let mut i: usize = 0;
    assert(ids_view(out@) =~= Seq::empty());
    while i < cs.len()
        invariant
            cs@ == text@,
            i <= cs@.len(),
            line_state(cs@.take(i as int)) == (ids_view(out@), cur@),
        decreases cs@.len() - i,
    {
        assert(cs@.take(i + 1).drop_last() =~= cs@.take(i as int));
        let c = cs[i];
        if c == '\n' {
            if cur.len() > 0 {
                let line = string_of(&cur);
                out.push(line);
                cur = Vec::new();
                assert(ids_view(out@) =~= line_state(cs@.take(i as int)).0.push(line@));
                assert(cur@ =~= Seq::<char>::empty());
            }
        } else {
            cur.push(c);
        }
        i = i + 1;
    }
    assert(cs@.take(i as int) =~= cs@);
    if cur.len() > 0 {
        let line = string_of(&cur);
        out.push(line);
        assert(ids_view(out@) =~= lines_spec(text@));
    }
    out
}

/// The text that holds each line followed by a line feed.
pub fn render_lines(lines: &Vec<String>) -> (r: String)
    ensures
        r@ == joined(ids_view(lines@)),
{
    let mut r = String::new();
    let mut i: usize = 0;
    proof { reveal_strlit("\n"); }
    assert(ids_view(lines@.take(0)) =~= Seq::empty());
    while i < lines.len()
        invariant
            i <= lines@.len(),
            r@ == joined(ids_view(lines@.take(i as int))),
            "\n"@ == seq!['\n'],
        decreases lines@.len() - i,
    {
        r.append(lines[i].as_str());
        r.append("\n");
        assert(ids_view(lines@.take(i + 1)).drop_last() =~= ids_view(lines@.take(i as int)));
        i = i + 1;
    }
    assert(lines@.take(i as int) =~= lines@);
    r
}

proof fn lemma_read_word(t: Seq<char>, done: Seq<Seq<char>>, w: Seq<char>)
    requires
        line_state(t) == (done, Seq::<char>::empty()),
        !w.contains('\n'),
    ensures
        line_state(t + w) == (done, w),
    decreases w.len(),
{
    if w.len() == 0 {
        assert(t + w =~= t);
    } else {
        let v = w.drop_last();
        assert(!v.contains('\n')) by {
            if v.contains('\n') {
                let k = choose|k: int| 0 <= k < v.len() && v[k] == '\n';
                assert(w[k] == '\n');
            }
        }
        lemma_read_word(t, done, v);
        assert((t + w).drop_last() =~= t + v);
        assert(w.last() != '\n') by {
            assert(w[w.len() - 1] == w.last());
        }
        assert(v.push(w.last()) =~= w);
    }
}

proof fn lemma_read_joined(ls: Seq<Seq<char>>)
    requires
        forall|k: int| 0 <= k < ls.len() ==> is_plain_line(#[trigger] ls[k]),
    ensures
        line_state(joined(ls)) == (ls, Seq::<char>::empty()),
    decreases ls.len(),
{
    if ls.len() == 0 {
    } else {
        let prev = ls.drop_last();
        assert forall|k: int| 0 <= k < prev.len() implies is_plain_line(#[trigger] prev[k]) by {
            assert(prev[k] == ls[k]);
        }
        lemma_read_joined(prev);
        let w = ls.last();
        assert(is_plain_line(ls[ls.len() - 1]));
        lemma_read_word(joined(prev), prev, w);
        let t = joined(prev) + w + seq!['\n'];
        assert(t.drop_last() =~= joined(prev) + w);
        assert(prev.push(w) =~= ls);
    }
}

/// Writing lines and reading them back gives the same lines, when each is non-empty and
/// holds no line feed.
pub proof fn lemma_lines_round_trip(ls: Seq<Seq<char>>)
    requires
        forall|k: int| 0 <= k < ls.len() ==> is_plain_line(#[trigger] ls[k]),
    ensures
        lines_spec(joined(ls)) == ls,
{
    lemma_read_joined(ls);
}

} // verus!

//! Operations on the characters of strings.

use vstd::prelude::*;
use vstd::string::StringExecFns;

verus! {

/// The lowercase form that `str::to_lowercase` gives a string.
pub uninterp spec fn lowercase_of(s: Seq<char>) -> Seq<char>;

/// Whether `char::is_whitespace` holds of a character.
pub uninterp spec fn whitespace(c: char) -> bool;

/// Calls `str::to_lowercase`, whose result depends on the characters of the
/// string alone; nothing more is claimed of it than that.
#[verifier::external_body]
pub(crate) fn to_lowercase(s: &str) -> (r: String)
    ensures
        r@ == lowercase_of(s@),
{
    s.to_lowercase()
}

/// Calls `char::is_whitespace`, whose result depends on the character alone;
/// nothing more is claimed of it than that.
#[verifier::external_body]
pub(crate) fn is_whitespace(c: char) -> (r: bool)
    ensures
        r == whitespace(c),
{
    c.is_whitespace()
}

/// The characters of a string.
pub fn chars_of(s: &str) -> (r: Vec<char>)
    ensures
        r@ == s@,
{
    let n = s.unicode_len();
    let mut out: Vec<char> = Vec::new();
    let mut i: usize = 0;
    while i < n
        invariant
            n == s@.len(),
            i <= n,
            out@ == s@.take(i as int),
        decreases n - i,
    {
        out.push(s.get_char(i));
        assert(s@.take(i + 1) == s@.take(i as int).push(s@[i as int]));
        i = i + 1;
    }
    assert(s@.take(n as int) == s@);
    out
}

/// The characters of `s` that are no whitespace, in their order.
pub open spec fn without_whitespace(s: Seq<char>) -> Seq<char> {
    s.filter(|c: char| !whitespace(c))
}

/// Each character with the mark of whether it is whitespace.
pub open spec fn marked_whitespace(s: Seq<char>) -> Seq<(char, bool)> {
    s.map_values(|c: char| (c, whitespace(c)))
}

/// The characters that are not marked, in their order.
pub open spec fn unmarked(marked: Seq<(char, bool)>) -> Seq<char> {
    marked.filter(|m: (char, bool)| !m.1).map_values(|m: (char, bool)| m.0)
}

/// The characters that are not marked as whitespace are those that are no
/// whitespace.
pub proof fn lemma_unmarked_whitespace(s: Seq<char>)
    ensures
        unmarked(marked_whitespace(s)) == without_whitespace(s),
    decreases s.len(),
{
    reveal(Seq::filter);
    if s.len() > 0 {
        lemma_unmarked_whitespace(s.drop_last());
        assert(marked_whitespace(s).drop_last() == marked_whitespace(s.drop_last()));
        let kept = marked_whitespace(s.drop_last()).filter(|m: (char, bool)| !m.1);
        if !whitespace(s.last()) {
            assert(kept.push((s.last(), false)).map_values(|m: (char, bool)| m.0)
                == kept.map_values(|m: (char, bool)| m.0).push(s.last()));
        }
    } else {
        assert(unmarked(marked_whitespace(s)) == Seq::<char>::empty());
    }
}

/// Marks each character with whether it is whitespace.
pub fn mark_whitespace(s: &Vec<char>) -> (r: Vec<(char, bool)>)
    ensures
        r@ == marked_whitespace(s@),
{
    let mut out: Vec<(char, bool)> = Vec::new();
    let mut i: usize = 0;
    while i < s.len()
        invariant
            i <= s.len(),
            out@ == marked_whitespace(s@.take(i as int)),
        decreases s.len() - i,
    {
        let c = s[i];
        out.push((c, is_whitespace(c)));
        assert(marked_whitespace(s@.take(i + 1)) == marked_whitespace(s@.take(i as int)).push(
            (c, whitespace(c)),
        ));
        i = i + 1;
    }
    assert(s@.take(s.len() as int) == s@);
    out
}

/// Removes every marked character.
pub fn drop_marked(marked: &Vec<(char, bool)>) -> (r: Vec<char>)
    ensures
        r@ == unmarked(marked@),
{
    let mut out: Vec<char> = Vec::new();
    let mut i: usize = 0;
    while i < marked.len()
        invariant
            i <= marked.len(),
            out@ == unmarked(marked@.take(i as int)),
        decreases marked.len() - i,
    {
        proof {
            reveal(Seq::filter);
            assert(marked@.take(i + 1).drop_last() == marked@.take(i as int));
            let kept = marked@.take(i as int).filter(|m: (char, bool)| !m.1);
            if !marked@[i as int].1 {
                assert(kept.push(marked@[i as int]).map_values(|m: (char, bool)| m.0)
                    == kept.map_values(|m: (char, bool)| m.0).push(marked@[i as int].0));
            }
        }
        if !marked[i].1 {
            out.push(marked[i].0);
        }
        i = i + 1;
    }
    assert(marked@.take(marked.len() as int) == marked@);
    out
}

/// Removes every whitespace character.
pub fn remove_whitespace(s: &Vec<char>) -> (r: Vec<char>)
    ensures
        r@ == without_whitespace(s@),
{
    let marked = mark_whitespace(s);
    proof {
        lemma_unmarked_whitespace(s@);
    }
    drop_marked(&marked)
}

/// Whether `needle` stands somewhere in `hay` as a run of neighbours. The
/// empty sequence stands in every sequence.
pub open spec fn occurs_in(needle: Seq<char>, hay: Seq<char>) -> bool {
    exists|i: int| occurs_at(needle, hay, i)
}

/// Whether `needle` stands in `hay` from position `i` on.
pub open spec fn occurs_at(needle: Seq<char>, hay: Seq<char>, i: int) -> bool {
    0 <= i <= hay.len() - needle.len() && hay.subrange(i, i + needle.len()) == needle
}

/// Whether `needle` stands in `hay` from position `i` on.
fn found_at(needle: &Vec<char>, hay: &Vec<char>, i: usize) -> (r: bool)
    requires
        i + needle.len() <= hay.len(),
    ensures
        r == occurs_at(needle@, hay@, i as int),
{
    let mut k: usize = 0;
    while k < needle.len()
        invariant
            k <= needle.len(),
            i + needle.len() <= hay.len(),
            forall|j: int| 0 <= j < k ==> hay@[i + j] == needle@[j],
        decreases needle.len() - k,
    {
        if hay[i + k] != needle[k] {
            assert(hay@.subrange(i as int, i + needle.len())[k as int] != needle@[k as int]);
            return false;
        }
        k = k + 1;
    }
    assert(hay@.subrange(i as int, i + needle.len()) == needle@);
    true
}

/// Whether one of the two stands somewhere in the other.
pub open spec fn either_occurs(a: Seq<char>, b: Seq<char>) -> bool {
    occurs_in(a, b) || occurs_in(b, a)
}

/// Whether one of the two stands somewhere in the other.
pub fn either_contains(a: &Vec<char>, b: &Vec<char>) -> (r: bool)
    ensures
        r == either_occurs(a@, b@),
{
    contains(b, a) || contains(a, b)
}

/// Whether `needle` stands somewhere in `hay`.
pub fn contains(hay: &Vec<char>, needle: &Vec<char>) -> (r: bool)
    ensures
        r == occurs_in(needle@, hay@),
{
    if needle.len() > hay.len() {
        return false;
    }
    let last = hay.len() - needle.len();
    let mut i: usize = 0;
    while i < last
        invariant
            last == hay.len() - needle.len(),
            i <= last,
            forall|j: int| 0 <= j < i ==> !occurs_at(needle@, hay@, j),
        decreases last - i,
    {
        if found_at(needle, hay, i) {
            return true;
        }
        i = i + 1;
    }
    found_at(needle, hay, last)
}

/// The characters of each string.
pub open spec fn views(parts: Seq<String>) -> Seq<Seq<char>> {
    parts.map_values(|s: String| s@)
}

/// The parts in their order, with `sep` between each two neighbours.
pub open spec fn joined(parts: Seq<Seq<char>>, sep: Seq<char>) -> Seq<char>
    decreases parts.len(),
{
    if parts.len() == 0 {
        Seq::empty()
    } else if parts.len() == 1 {
        parts[0]
    } else {
        joined(parts.drop_last(), sep) + sep + parts.last()
    }
}

/// Joins the parts, with `sep` between each two neighbours.
pub fn join(parts: &Vec<String>, sep: &str) -> (r: String)
    ensures
        r@ == joined(views(parts@), sep@),
{
    let mut out = String::new();
    let mut i: usize = 0;
    while i < parts.len()
        invariant
            i <= parts.len(),
            out@ == joined(views(parts@).take(i as int), sep@),
        decreases parts.len() - i,
    {
        proof {
            let next = views(parts@).take(i + 1);
            assert(next.drop_last() == views(parts@).take(i as int));
            assert(next.last() == parts@[i as int]@);
            if i == 0 {
                assert(next[0] == parts@[0]@);
                assert(Seq::<char>::empty() + parts@[0]@ == parts@[0]@);
            }
        }
        if i > 0 {
            out.append(sep);
        }
        out.append(parts[i].as_str());
        i = i + 1;
    }
    assert(views(parts@).take(parts.len() as int) == views(parts@));
    out
}

} // verus!

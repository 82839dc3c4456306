//! Small helpers for moving between `String`/`&str` and `Vec<char>`, plus
//! verified character-sequence routines shared by the rest of the crate.

use vstd::prelude::*;

verus! {

broadcast use vstd::std_specs::vec::group_vec_axioms, vstd::seq::group_seq_axioms,
    vstd::seq_lib::group_seq_lib_default;

/// Relies on str's PartialEq: two string slices are equal exactly when their
/// character sequences are.
#[verifier::external_body]
pub fn str_eq(a: &str, b: &str) -> (r: bool)
    ensures
        r == (a@ == b@),
{
    a == b
}

/// Relies on str::chars: iterating a string slice yields exactly the
/// characters of its view, in order.
#[verifier::external_body]
pub fn chars_of(s: &str) -> (r: Vec<char>)
    ensures
        r@ == s@,
{
    s.chars().collect()
}

/// Relies on String's FromIterator over chars: collecting characters builds
/// the string with exactly those characters, in order.
#[verifier::external_body]
pub fn string_of(v: &Vec<char>) -> (r: String)
    ensures
        r@ == v@,
{
    v.iter().collect()
}

/// True when `p` occurs in `s` starting at position `at`.
pub open spec fn occurs_at(s: Seq<char>, p: Seq<char>, at: int) -> bool {
    0 <= at && at + p.len() <= s.len() && s.subrange(at, at + p.len()) == p
}

/// True when `p` occurs somewhere in `s`.
pub open spec fn contains_seq(s: Seq<char>, p: Seq<char>) -> bool {
    exists|at: int| occurs_at(s, p, at)
}

/// True when `s` begins with `p`.
pub open spec fn starts_with(s: Seq<char>, p: Seq<char>) -> bool {
    occurs_at(s, p, 0)
}

/// Whether the characters of `s` and of `p` agree over `p`'s length,
/// starting at `s[at]`.
pub fn matches_at(s: &Vec<char>, at: usize, p: &Vec<char>) -> (r: bool)
    requires
        at <= s@.len(),
    ensures
        r == occurs_at(s@, p@, at as int),
{
    if p.len() > s.len() - at {
        assert(!occurs_at(s@, p@, at as int));
        return false;
    }
    let mut i: usize = 0;
    while i < p.len()
        invariant
            0 <= i <= p@.len(),
            at + p@.len() <= s@.len() <= usize::MAX,
            forall|j: int| 0 <= j < i ==> s@[at + j] == p@[j],
        decreases p@.len() - i,
    {
        if s[at + i] != p[i] {
            assert(s@.subrange(at as int, at + p@.len())[i as int] != p@[i as int]);
            return false;
        }
        i = i + 1;
    }
    assert(s@.subrange(at as int, at + p@.len()) =~= p@);
    true
}

/// The position of the first occurrence of `p` in `s`, if any.
pub fn find_first(s: &Vec<char>, p: &Vec<char>) -> (r: Option<usize>)
    ensures
        match r {
            Some(at) => occurs_at(s@, p@, at as int) && forall|j: int|
                0 <= j < at ==> !occurs_at(s@, p@, j),
            None => !contains_seq(s@, p@),
        },
{
    if p.len() == 0 {
        assert(s@.subrange(0, 0) =~= p@);
        return Some(0);
    }
    let mut i: usize = 0;
    while i < s.len()
        invariant
            0 <= i <= s@.len(),
            forall|j: int| 0 <= j < i ==> !occurs_at(s@, p@, j),
        decreases s@.len() - i,
    {
        if matches_at(s, i, p) {
            return Some(i);
        }
        i = i + 1;
    }
    assert forall|at: int| !occurs_at(s@, p@, at) by {
        if 0 <= at && at + p@.len() <= s@.len() {
            assert(at < s@.len());
            assert(!occurs_at(s@, p@, at));
        }
    }
    None
}

/// The parts joined with one separator character between neighbours.
pub open spec fn join_char(parts: Seq<Seq<char>>, sep: char) -> Seq<char>
    decreases parts.len(),
{
    if parts.len() == 0 {
        Seq::empty()
    } else if parts.len() == 1 {
        parts[0]
    } else {
        parts[0] + seq![sep] + join_char(parts.drop_first(), sep)
    }
}

/// Joining one more part appends a separator unless nothing came before.
pub proof fn lemma_join_char_push(parts: Seq<Seq<char>>, sep: char, p: Seq<char>)
    ensures
        join_char(parts.push(p), sep) == if parts.len() == 0 {
            p
        } else {
            join_char(parts, sep) + seq![sep] + p
        },
    decreases parts.len(),
{
    if parts.len() == 0 {
        assert(parts.push(p)[0] == p);
    } else {
        lemma_join_char_push(parts.drop_first(), sep, p);
        assert(parts.push(p).drop_first() =~= parts.drop_first().push(p));
        if parts.len() == 1 {
            assert(join_char(parts.push(p), sep) == parts[0] + seq![sep] + join_char(
                parts.drop_first().push(p),
                sep,
            ));
            assert(join_char(parts.drop_first().push(p), sep) == p);
        } else {
            assert(join_char(parts, sep) + seq![sep] + p =~= parts[0] + seq![sep] + (join_char(
                parts.drop_first(),
                sep,
            ) + seq![sep] + p));
        }
    }
}

/// The characters of `s` before position `to`.
pub fn slice_to(s: &Vec<char>, to: usize) -> (r: Vec<char>)
    requires
        to <= s@.len(),
    ensures
        r@ == s@.take(to as int),
{
    let mut out: Vec<char> = Vec::new();
    let mut i: usize = 0;
    while i < to
        invariant
            0 <= i <= to <= s@.len(),
            out@ == s@.subrange(0, i as int),
        decreases to - i,
    {
        out.push(s[i]);
        i = i + 1;
        assert(out@ =~= s@.subrange(0, i as int));
    }
    out
}

/// The characters of `s` from position `at` on.
pub fn slice_from(s: &Vec<char>, at: usize) -> (r: Vec<char>)
    requires
        at <= s@.len(),
    ensures
        r@ == s@.skip(at as int),
{
    let mut out: Vec<char> = Vec::new();
    let mut i: usize = at;
    while i < s.len()
        invariant
            at <= i <= s@.len(),
            out@ == s@.subrange(at as int, i as int),
        decreases s@.len() - i,
    {
        out.push(s[i]);
        i = i + 1;
        assert(out@ =~= s@.subrange(at as int, i as int));
    }
    assert(out@ =~= s@.skip(at as int));
    out
}

/// The parts joined with one separator string between neighbours.
pub open spec fn join_seq(parts: Seq<Seq<char>>, sep: Seq<char>) -> Seq<char>
    decreases parts.len(),
{
    if parts.len() == 0 {
        Seq::empty()
    } else if parts.len() == 1 {
        parts[0]
    } else {
        parts[0] + sep + join_seq(parts.drop_first(), sep)
    }
}

/// Joining one more part appends a separator unless nothing came before.
pub proof fn lemma_join_seq_push(parts: Seq<Seq<char>>, sep: Seq<char>, p: Seq<char>)
    ensures
        join_seq(parts.push(p), sep) == if parts.len() == 0 {
            p
        } else {
            join_seq(parts, sep) + sep + p
        },
    decreases parts.len(),
{
    if parts.len() == 0 {
        assert(parts.push(p)[0] == p);
    } else {
        lemma_join_seq_push(parts.drop_first(), sep, p);
        assert(parts.push(p).drop_first() =~= parts.drop_first().push(p));
        if parts.len() == 1 {
            assert(join_seq(parts.push(p), sep) == parts[0] + sep + join_seq(
                parts.drop_first().push(p),
                sep,
            ));
            assert(join_seq(parts.drop_first().push(p), sep) == p);
        } else {
            assert(join_seq(parts, sep) + sep + p =~= parts[0] + sep + (join_seq(
                parts.drop_first(),
                sep,
            ) + sep + p));
        }
    }
}

} // verus!

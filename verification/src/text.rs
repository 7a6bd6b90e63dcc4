//! Conversions between `String` text and vectors of characters, which the
//! parsing and rendering code works on.

use vstd::prelude::*;
use vstd::string::StrSliceExecFns;

verus! {

/// Collects the characters of `s` into a vector.
pub(crate) fn chars_of(s: &str) -> (v: Vec<char>)
    ensures
        v@ == s@,
{
    let n = s.unicode_len();
    let mut v: Vec<char> = Vec::new();
    let mut i: usize = 0;
    while i < n
        invariant
            i <= n,
            n == s@.len(),
            v@ == s@.subrange(0, i as int),
        decreases n - i,
    {
        v.push(s.get_char(i));
        i = i + 1;
        proof {
            assert(v@ =~= s@.subrange(0, i as int));
        }
    }
    proof {
        assert(v@ =~= s@);
    }
    v
}

/// The whitespace characters stripped from the ends of credential fields.
pub open spec fn is_space(c: char) -> bool {
    c == ' ' || c == '\t' || c == '\n' || c == '\r'
}

/// First position at or after `pos` past the leading run of whitespace.
pub open spec fn space_run_end(s: Seq<char>, pos: int) -> int
    decreases s.len() - pos,
{
    if 0 <= pos < s.len() && is_space(s[pos]) {
        space_run_end(s, pos + 1)
    } else {
        pos
    }
}

/// First position at or before `pos` with no whitespace just before it.
pub open spec fn rspace_run_begin(s: Seq<char>, pos: int) -> int
    decreases pos,
{
    if 0 < pos <= s.len() && is_space(s[pos - 1]) {
        rspace_run_begin(s, pos - 1)
    } else {
        pos
    }
}

/// `s` with leading and trailing whitespace removed.
pub open spec fn spec_trim(s: Seq<char>) -> Seq<char> {
    let a = space_run_end(s, 0);
    if a == s.len() {
        Seq::empty()
    } else {
        s.subrange(a, rspace_run_begin(s, s.len() as int))
    }
}

pub proof fn lemma_space_run_end(s: Seq<char>, pos: int)
    requires
        0 <= pos <= s.len(),
    ensures
        pos <= space_run_end(s, pos) <= s.len(),
        space_run_end(s, pos) == s.len() || !is_space(s[space_run_end(s, pos)]),
    decreases s.len() - pos,
{
    if pos < s.len() && is_space(s[pos]) {
        lemma_space_run_end(s, pos + 1);
    }
}

/// The whitespace run that covers exactly the spaces `[pos, to)` ends at
/// `to`.
pub proof fn lemma_space_run_exact(s: Seq<char>, pos: int, to: int)
    requires
        0 <= pos <= to <= s.len(),
        forall|i: int| pos <= i < to ==> is_space(#[trigger] s[i]),
        to == s.len() || !is_space(s[to]),
    ensures
        space_run_end(s, pos) == to,
    decreases to - pos,
{
    if pos < to {
        lemma_space_run_exact(s, pos + 1, to);
    }
}

/// Finds the end of the run of whitespace that starts at `pos`.
pub(crate) fn skip_spaces(s: &Vec<char>, pos: usize) -> (end: usize)
    requires
        pos <= s@.len(),
    ensures
        end == space_run_end(s@, pos as int),
        pos <= end <= s@.len(),
        end == s@.len() || !is_space(s@[end as int]),
{
    let mut i: usize = pos;
    while i < s.len() && is_space_exec(s[i])
        invariant
            pos <= i <= s@.len(),
            space_run_end(s@, pos as int) == space_run_end(s@, i as int),
        decreases s@.len() - i,
    {
        i = i + 1;
    }
    proof {
        assert(space_run_end(s@, i as int) == i);
        lemma_space_run_end(s@, pos as int);
    }
    i
}

proof fn lemma_rspace_run_begin(s: Seq<char>, pos: int, a: int)
    requires
        0 <= a < pos <= s.len(),
        !is_space(s[a]),
    ensures
        a < rspace_run_begin(s, pos) <= pos,
    decreases pos,
{
    if is_space(s[pos - 1]) {
        lemma_rspace_run_begin(s, pos - 1, a);
    }
}

proof fn lemma_rspace_le(s: Seq<char>, pos: int)
    requires
        0 <= pos <= s.len(),
    ensures
        0 <= rspace_run_begin(s, pos) <= pos,
    decreases pos,
{
    if 0 < pos && is_space(s[pos - 1]) {
        lemma_rspace_le(s, pos - 1);
    }
}

fn is_space_exec(c: char) -> (r: bool)
    ensures
        r == is_space(c),
{
    c == ' ' || c == '\t' || c == '\n' || c == '\r'
}

/// Strips leading and trailing whitespace from `v`.
pub(crate) fn trim_chars(v: &Vec<char>) -> (r: Vec<char>)
    ensures
        r@ == spec_trim(v@),
{
    let n = v.len();
    let mut a: usize = 0;
    while a < n && is_space_exec(v[a])
        invariant
            a <= n,
            n == v@.len(),
            space_run_end(v@, 0) == space_run_end(v@, a as int),
        decreases n - a,
    {
        a = a + 1;
    }
    proof {
        assert(space_run_end(v@, a as int) == a);
    }
    let mut r: Vec<char> = Vec::new();
    if a == n {
        return r;
    }
    let mut b: usize = n;
    while b > a && is_space_exec(v[b - 1])
        invariant
            a < b <= n || b == a,
            n == v@.len(),
            rspace_run_begin(v@, n as int) == rspace_run_begin(v@, b as int),
        decreases b,
    {
        b = b - 1;
    }
    proof {
        if b > a {
            assert(rspace_run_begin(v@, b as int) == b);
        } else {
            assert(b == a);
            lemma_rspace_run_begin(v@, n as int, a as int);
            lemma_rspace_le(v@, a as int);
            assert(false);
        }
    }
    let mut i: usize = a;
    while i < b
        invariant
            a <= i <= b <= n,
            n == v@.len(),
            r@ == v@.subrange(a as int, i as int),
        decreases b - i,
    {
        r.push(v[i]);
        i = i + 1;
        proof {
            assert(r@ =~= v@.subrange(a as int, i as int));
        }
    }
    r
}

/// Compares character content against a string.
pub(crate) fn chars_eq_str(v: &Vec<char>, s: &str) -> (r: bool)
    ensures
        r == (v@ == s@),
{
    let n = s.unicode_len();
    if v.len() != n {
        proof {
            assert(v@.len() != s@.len());
        }
        return false;
    }
    let mut i: usize = 0;
    while i < n
        invariant
            i <= n,
            n == s@.len(),
            n == v@.len(),
            forall|j: int| 0 <= j < i ==> v@[j] == s@[j],
        decreases n - i,
    {
        if v[i] != s.get_char(i) {
            return false;
        }
        i = i + 1;
    }
    proof {
        assert(v@ =~= s@);
    }
    true
}

/// Relies on `String`'s `FromIterator<char>` impl: collecting characters
/// yields the string of exactly those characters, in order.
#[verifier::external_body]
pub(crate) fn string_from_chars(v: &Vec<char>) -> (s: String)
    ensures
        s@ == v@,
{
    v.iter().collect()
}

} // verus!

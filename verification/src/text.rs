//! Scanning text for the last occurrence of a character.
//!
//! Filename decomposition and path splitting both hinge on the position of
//! the last occurrence of a marker character (`.`, `(`, `)`, `/`).  This
//! module defines that position once, proves how it behaves under
//! concatenation, and provides the executable search.

use vstd::prelude::*;

verus! {

/// The index of the last occurrence of `c` in `s`, or `-1` when `c` does
/// not occur.
pub open spec fn last_index_of(s: Seq<char>, c: char) -> int
    decreases s.len(),
{
    if s.len() == 0 {
        -1
    } else if s.last() == c {
        s.len() - 1
    } else {
        last_index_of(s.drop_last(), c)
    }
}

/// `last_index_of` returns a position of `c` with nothing equal to `c`
/// after it, or `-1` when `c` does not occur at all.
pub proof fn lemma_last_index_of(s: Seq<char>, c: char)
    ensures
        -1 <= last_index_of(s, c) < s.len(),
        last_index_of(s, c) >= 0 ==> s[last_index_of(s, c)] == c,
        forall|j: int| last_index_of(s, c) < j < s.len() ==> s[j] != c,
    decreases s.len(),
{
    if s.len() > 0 && s.last() != c {
        lemma_last_index_of(s.drop_last(), c);
        assert(forall|j: int| 0 <= j < s.len() - 1 ==> s[j] == s.drop_last()[j]);
    }
}

/// The characterization above pins the value down: any position of `c`
/// with no later occurrence is the last index.
pub proof fn lemma_last_index_of_unique(s: Seq<char>, c: char, i: int)
    requires
        0 <= i < s.len(),
        s[i] == c,
        forall|j: int| i < j < s.len() ==> s[j] != c,
    ensures
        last_index_of(s, c) == i,
{
    lemma_last_index_of(s, c);
    let k = last_index_of(s, c);
    if k < i {
        assert(s[i] == c);
    } else if k > i {
        assert(s[k] == c);
    }
}

/// When `c` occurs nowhere in `s`, the last index is `-1`.
pub proof fn lemma_last_index_of_absent(s: Seq<char>, c: char)
    requires
        forall|j: int| 0 <= j < s.len() ==> s[j] != c,
    ensures
        last_index_of(s, c) == -1,
{
    lemma_last_index_of(s, c);
    if last_index_of(s, c) >= 0 {
        assert(s[last_index_of(s, c)] == c);
    }
}

/// The last index in a concatenation: a hit in the right part wins,
/// otherwise the left part decides.
pub proof fn lemma_last_index_of_append(a: Seq<char>, b: Seq<char>, c: char)
    ensures
        last_index_of(a + b, c) == if last_index_of(b, c) >= 0 {
            a.len() + last_index_of(b, c)
        } else {
            last_index_of(a, c)
        },
    decreases b.len(),
{
    if b.len() == 0 {
        assert(a + b =~= a);
    } else {
        let s = a + b;
        assert(s.last() == b.last());
        if b.last() == c {
            assert(last_index_of(b, c) == b.len() - 1);
        } else {
            assert(s.drop_last() =~= a + b.drop_last());
            lemma_last_index_of_append(a, b.drop_last(), c);
        }
    }
}

/// The executable search for the last occurrence of `c` in `s`.
pub fn find_last(s: &str, c: char) -> (r: Option<usize>)
    ensures
        (match r {
            Some(i) => last_index_of(s@, c) == i as int && i < s@.len() && s@[i as int] == c,
            None => last_index_of(s@, c) == -1,
        }),
{
    let n = s.unicode_len();
    let mut idx: usize = n;
    loop
        invariant
            idx <= n,
            n == s@.len(),
            forall|j: int| idx <= j < s@.len() ==> s@[j] != c,
        decreases idx,
    {
        if idx == 0 {
            proof {
                lemma_last_index_of_absent(s@, c);
            }
            return None;
        }
        idx = idx - 1;
        if s.get_char(idx) == c {
            proof {
                lemma_last_index_of_unique(s@, c, idx as int);
            }
            return Some(idx);
        }
    }
}

} // verus!

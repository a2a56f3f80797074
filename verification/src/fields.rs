//! Cutting a sequence at a separator.

use vstd::prelude::*;

verus! {

/// The position just after the last occurrence of `sep`, or zero: where the
/// last field of `s` begins.
pub open spec fn last_field<T>(s: Seq<T>, sep: T) -> int
    decreases s.len(),
{
    if s.len() == 0 {
        0
    } else if s.last() == sep {
        s.len() as int
    } else {
        last_field(s.drop_last(), sep)
    }
}

/// What `last_field` finds: a separator stands right before it and none after.
pub proof fn lemma_last_field<T>(s: Seq<T>, sep: T)
    ensures
        0 <= last_field(s, sep) <= s.len(),
        last_field(s, sep) > 0 ==> s[last_field(s, sep) - 1] == sep,
        forall|i: int| last_field(s, sep) <= i < s.len() ==> s[i] != sep,
    decreases s.len(),
{
    if s.len() > 0 && s.last() != sep {
        lemma_last_field(s.drop_last(), sep);
        assert forall|i: int| last_field(s, sep) <= i < s.len() implies s[i] != sep by {
            if i < s.len() - 1 {
                assert(s.drop_last()[i] == s[i]);
            }
        }
    }
}

/// Those two facts determine the position.
pub proof fn lemma_last_field_unique<T>(s: Seq<T>, sep: T, start: int)
    requires
        0 <= start <= s.len(),
        start > 0 ==> s[start - 1] == sep,
        forall|i: int| start <= i < s.len() ==> s[i] != sep,
    ensures
        last_field(s, sep) == start,
{
    lemma_last_field(s, sep);
    let found = last_field(s, sep);
    if found < start {
        assert(s[start - 1] == sep);
    } else if start < found {
        assert(s[found - 1] == sep);
    }
}

/// The contents of a list of vectors.
pub open spec fn texts<T>(v: Seq<Vec<T>>) -> Seq<Seq<T>> {
    v.map_values(|t: Vec<T>| t@)
}

/// Where the last field of `s[..len]` begins.
pub fn find_last_field(s: &Vec<u8>, len: usize, sep: u8) -> (start: usize)
    requires
        len <= s@.len(),
    ensures
        start == last_field(s@.take(len as int), sep),
        start <= len,
{
    let mut start: usize = len;
    while start > 0 && s[start - 1] != sep
        invariant
            start <= len <= s@.len(),
            forall|i: int| start <= i < len ==> s@[i] != sep,
        decreases start,
    {
        start = start - 1;
    }
    proof {
        let t = s@.take(len as int);
        assert(start > 0 ==> t[start - 1] == sep);
        lemma_last_field_unique(t, sep, start as int);
    }
    start
}

} // verus!

//! Two things the services ask of a sequence: where the first element of
//! a kind stands, and which elements are of a kind, newest first.

use vstd::prelude::*;

verus! {

/// The place of the first element of `s` that `p` holds of, or the length
/// of `s` if there is none.
pub open spec fn first_where<T>(s: Seq<T>, p: spec_fn(T) -> bool) -> int
    decreases s.len(),
{
    if s.len() == 0 {
        0
    } else if p(s[0]) {
        0
    } else {
        1 + first_where(s.drop_first(), p)
    }
}

/// The elements of `s` that `p` holds of, the last of them first.
pub open spec fn newest_first<T>(s: Seq<T>, p: spec_fn(T) -> bool) -> Seq<T>
    decreases s.len(),
{
    if s.len() == 0 {
        Seq::empty()
    } else if p(s[0]) {
        newest_first(s.drop_first(), p).push(s[0])
    } else {
        newest_first(s.drop_first(), p)
    }
}

/// The first element of a kind stands at the first place that holds one.
pub proof fn lemma_first_where_is<T>(s: Seq<T>, p: spec_fn(T) -> bool, i: int)
    requires
        0 <= i <= s.len(),
        forall|k: int| 0 <= k < i ==> !p(#[trigger] s[k]),
        i < s.len() ==> p(s[i]),
    ensures
        first_where(s, p) == i,
    decreases s.len(),
{
    if s.len() > 0 && i > 0 {
        let rest = s.drop_first();
        assert(!p(s[0]));
        assert forall|k: int| 0 <= k < i - 1 implies !p(#[trigger] rest[k]) by {
            assert(rest[k] == s[k + 1]);
        }
        lemma_first_where_is(rest, p, i - 1);
    }
}

/// The place of the first element of a kind is a place of the sequence or
/// its end; no element before it is of the kind, and the element at it is.
pub proof fn lemma_first_where_range<T>(s: Seq<T>, p: spec_fn(T) -> bool)
    ensures
        0 <= first_where(s, p) <= s.len(),
        first_where(s, p) < s.len() ==> p(s[first_where(s, p)]),
        forall|k: int| 0 <= k < first_where(s, p) ==> !p(#[trigger] s[k]),
    decreases s.len(),
{
    if s.len() > 0 && !p(s[0]) {
        let rest = s.drop_first();
        lemma_first_where_range(rest, p);
        assert forall|k: int| 0 <= k < first_where(s, p) implies !p(#[trigger] s[k]) by {
            if k > 0 {
                assert(s[k] == rest[k - 1]);
            }
        }
    }
}

/// Going through `s` from its end, the element at place `i` comes after
/// those behind it.
pub proof fn lemma_newest_first_step<T>(s: Seq<T>, p: spec_fn(T) -> bool, i: int)
    requires
        0 <= i < s.len(),
    ensures
        newest_first(s.skip(i), p) == if p(s[i]) {
            newest_first(s.skip(i + 1), p).push(s[i])
        } else {
            newest_first(s.skip(i + 1), p)
        },
{
    assert(s.skip(i).drop_first() =~= s.skip(i + 1));
    assert(s.skip(i)[0] == s[i]);
}

} // verus!

//! Reading names and numbers out of text.

use vstd::prelude::*;
use vstd::string::StrSliceExecFns;

verus! {

/// Whether `c` is one of `0` to `9`.
pub open spec fn is_digit(c: char) -> bool {
    '0' <= c <= '9'
}

/// Whether a character is the decimal point.
pub open spec fn is_point() -> spec_fn(char) -> bool {
    |c: char| c == '.'
}

/// Whether `s` is made of digits only.
pub open spec fn digits(s: Seq<char>) -> bool {
    forall|i: int| 0 <= i < s.len() ==> is_digit(#[trigger] s[i])
}

/// The number that the digits of `s` write in base ten.
pub open spec fn value(s: Seq<char>) -> int
    decreases s.len(),
{
    if s.len() == 0 {
        0
    } else {
        10 * value(s.drop_last()) + (s.last() as int - '0' as int)
    }
}

/// The code of `c`, with the capital letters `A` to `Z` taken as small.
pub open spec fn folded(c: char) -> u32 {
    if 'A' <= c <= 'Z' {
        (c as u32 + 32) as u32
    } else {
        c as u32
    }
}

/// Whether two names are the same but for the case of their letters.
pub open spec fn same_name(a: Seq<char>, b: Seq<char>) -> bool {
    &&& a.len() == b.len()
    &&& forall|i: int| 0 <= i < a.len() ==> folded(#[trigger] a[i]) == folded(b[i])
}

/// A number written with more digits is no smaller.
pub proof fn lemma_value_prefix(s: Seq<char>, i: int)
    requires
        digits(s),
        0 <= i <= s.len(),
    ensures
        0 <= value(s.take(i)) <= value(s),
    decreases s.len() - i,
{
    if i == s.len() {
        assert(s.take(i) =~= s);
        lemma_value_nonneg(s);
    } else {
        lemma_value_prefix(s, i + 1);
        assert(s.take(i + 1).drop_last() =~= s.take(i));
        assert(is_digit(s[i]));
        assert(s.take(i + 1).last() == s[i]);
        lemma_value_nonneg(s.take(i));
    }
}

/// Digits write a number that is zero or more.
pub proof fn lemma_value_nonneg(s: Seq<char>)
    requires
        digits(s),
    ensures
        value(s) >= 0,
    decreases s.len(),
{
    if s.len() > 0 {
        assert(is_digit(s[s.len() - 1]));
        assert forall|i: int| 0 <= i < s.drop_last().len() implies is_digit(
            #[trigger] s.drop_last()[i],
        ) by {
            assert(s.drop_last()[i] == s[i]);
        }
        lemma_value_nonneg(s.drop_last());
    }
}

fn fold(c: char) -> (r: u32)
    ensures
        r == folded(c),
{
    if 'A' <= c && c <= 'Z' {
        c as u32 + 32
    } else {
        c as u32
    }
}

/// Whether `a` and `b` are the same name but for the case of their
/// letters.
pub fn names_match(a: &str, b: &str) -> (r: bool)
    ensures
        r == same_name(a@, b@),
{
    let n: usize = a.unicode_len();
    if n != b.unicode_len() {
        return false;
    }
    let mut i: usize = 0;
    while i < n
        invariant
            i <= n,
            n == a@.len(),
            n == b@.len(),
            forall|k: int| 0 <= k < i ==> folded(#[trigger] a@[k]) == folded(b@[k]),
        decreases n - i,
    {
        if fold(a.get_char(i)) != fold(b.get_char(i)) {
            return false;
        }
        i = i + 1;
    }
    true
}

/// The number that the characters of `s` from place `from` up to place
/// `to` write, if they are all digits and the number is at most `max`.
pub fn parse_digits(s: &str, from: usize, to: usize, max: u128) -> (r: Option<u128>)
    requires
        from <= to <= s@.len(),
    ensures
        r is Some <==> digits(s@.subrange(from as int, to as int)) && value(
            s@.subrange(from as int, to as int),
        ) <= max,
        r matches Some(v) ==> v == value(s@.subrange(from as int, to as int)),
{
    let ghost part = s@.subrange(from as int, to as int);
    let mut acc: u128 = 0;
    let mut i: usize = from;
    proof {
        assert(part.take(0) =~= Seq::<char>::empty());
    }
    while i < to
        invariant
            from <= i <= to <= s@.len(),
            part == s@.subrange(from as int, to as int),
            digits(part.take(i - from)),
            acc == value(part.take(i - from)),
            acc <= max,
        decreases to - i,
    {
        let c: char = s.get_char(i);
        proof {
            assert(part[i - from] == c);
            assert(part.take(i - from + 1).drop_last() =~= part.take(i - from));
            assert(part.take(i - from + 1).last() == c);
        }
        if !('0' <= c && c <= '9') {
            return None;
        }
        let d: u128 = (c as u32 - '0' as u32) as u128;
        if d > max || acc > (max - d) / 10 {
            proof {
                if digits(part) {
                    lemma_value_prefix(part, i - from + 1);
                }
            }
            return None;
        }
        acc = acc * 10 + d;
        proof {
            assert forall|k: int| 0 <= k < part.take(i - from + 1).len() implies is_digit(
                #[trigger] part.take(i - from + 1)[k],
            ) by {
                if k < i - from {
                    assert(part.take(i - from)[k] == part.take(i - from + 1)[k]);
                }
            }
        }
        i = i + 1;
    }
    proof {
        assert(part.take(to - from) =~= part);
    }
    Some(acc)
}

/// Whether the characters of `s` from place `from` up to place `to` are
/// all digits.
pub fn all_digits(s: &str, from: usize, to: usize) -> (r: bool)
    requires
        from <= to <= s@.len(),
    ensures
        r == digits(s@.subrange(from as int, to as int)),
{
    let ghost part = s@.subrange(from as int, to as int);
    let mut i: usize = from;
    while i < to
        invariant
            from <= i <= to <= s@.len(),
            part == s@.subrange(from as int, to as int),
            forall|k: int| 0 <= k < i - from ==> is_digit(#[trigger] part[k]),
        decreases to - i,
    {
        let c: char = s.get_char(i);
        if !('0' <= c && c <= '9') {
            proof {
                assert(part[i - from] == c);
            }
            return false;
        }
        i = i + 1;
    }
    true
}

/// The number written by the digits of `before` followed by the
/// characters of `s` from place `from` up to place `to`, which are digits
/// too, if it is at most `max`; `start` is the number that `before` writes.
pub fn extend_digits(
    s: &str,
    from: usize,
    to: usize,
    start: u128,
    Ghost(before): Ghost<Seq<char>>,
    max: u128,
) -> (r: Option<u128>)
    requires
        from <= to <= s@.len(),
        digits(before),
        digits(s@.subrange(from as int, to as int)),
        start == value(before),
        start <= max,
    ensures
        r is Some <==> value(before + s@.subrange(from as int, to as int)) <= max,
        r matches Some(v) ==> v == value(before + s@.subrange(from as int, to as int)),
{
    let ghost part = s@.subrange(from as int, to as int);
    let ghost all = before + part;
    let mut acc: u128 = start;
    let mut i: usize = from;
    proof {
        assert(before + part.take(0) =~= before);
        assert forall|k: int| 0 <= k < all.len() implies is_digit(#[trigger] all[k]) by {
            if k < before.len() {
                assert(all[k] == before[k]);
            } else {
                assert(all[k] == part[k - before.len()]);
            }
        }
    }
    while i < to
        invariant
            from <= i <= to <= s@.len(),
            part == s@.subrange(from as int, to as int),
            all == before + part,
            digits(all),
            digits(part),
            acc == value(before + part.take(i - from)),
            acc <= max,
        decreases to - i,
    {
        let c: char = s.get_char(i);
        proof {
            assert(part[i - from] == c);
            assert(is_digit(part[i - from]));
            assert((before + part.take(i - from + 1)).drop_last() =~= before + part.take(
                i - from,
            ));
            assert((before + part.take(i - from + 1)).last() == c);
            assert(before + part.take(i - from + 1) =~= all.take(before.len() + i - from + 1));
        }
        let d: u128 = (c as u32 - '0' as u32) as u128;
        if d > max || acc > (max - d) / 10 {
            proof {
                lemma_value_prefix(all, before.len() + i - from + 1);
            }
            return None;
        }
        acc = acc * 10 + d;
        i = i + 1;
    }
    proof {
        assert(part.take(to - from) =~= part);
    }
    Some(acc)
}

} // verus!

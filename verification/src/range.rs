//! Index normalisation for inclusive ranges over a sequence.

use vstd::prelude::*;

verus! {

/// Position that a possibly negative index denotes in a sequence of `len`
/// items: a negative index counts from the end, and the outcome is clamped
/// to `[0, len - 1]`.
pub open spec fn resolve_index(i: int, len: int) -> int
    recommends
        len > 0,
{
    let shifted = if i < 0 { len + i } else { i };
    if shifted < 0 {
        0
    } else if shifted > len - 1 {
        len - 1
    } else {
        shifted
    }
}

/// Inclusive bounds selected by `start` and `stop` on a sequence of `len`
/// items, or `None` when nothing is selected.
pub open spec fn range_bounds(start: int, stop: int, len: int) -> Option<(int, int)> {
    if len <= 0 {
        None
    } else {
        let first = resolve_index(start, len);
        let last = resolve_index(stop, len);
        if first > last {
            None
        } else {
            Some((first, last))
        }
    }
}

/// Items selected by `start` and `stop` from `s`.
pub open spec fn range_of<T>(s: Seq<T>, start: int, stop: int) -> Seq<T> {
    match range_bounds(start, stop, s.len() as int) {
        Some((first, last)) => s.subrange(first, last + 1),
        None => Seq::empty(),
    }
}

/// The position that a possibly negative index denotes.
fn resolve(i: i64, len: usize) -> (r: usize)
    requires
        len > 0,
    ensures
        r == resolve_index(i as int, len as int),
        r < len,
{
    let wide: i128 = if i < 0 {
        len as i128 + i as i128
    } else {
        i as i128
    };
    if wide < 0 {
        0
    } else if wide > len as i128 - 1 {
        len - 1
    } else {
        wide as usize
    }
}

/// Turns a `start`/`stop` pair, either of which may count from the end, into
/// inclusive positions of a sequence of `len` items.
pub fn normalize_range(start: i64, stop: i64, len: usize) -> (r: Option<(usize, usize)>)
    ensures
        match r {
            Some((first, last)) => range_bounds(start as int, stop as int, len as int) == Some(
                (first as int, last as int),
            ) && first <= last < len,
            None => range_bounds(start as int, stop as int, len as int).is_none(),
        },
{
    if len == 0 {
        return None;
    }
    let first = resolve(start, len);
    let last = resolve(stop, len);
    if first > last {
        None
    } else {
        Some((first, last))
    }
}

/// Selecting from the first item to the last one yields the whole sequence.
pub proof fn lemma_full_range<T>(s: Seq<T>)
    ensures
        range_of(s, 0, -1) == s,
{
    if s.len() > 0 {
        assert(s.subrange(0, s.len() as int) == s);
    }
}

} // verus!

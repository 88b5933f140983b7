//! Arithmetic between absolute indices and slot positions.

use std::ops::Range;
use vstd::prelude::*;

verus! {

/// The number of values a `usize` can take.
pub open spec fn usize_modulus() -> int {
    usize::MAX as int + 1
}

/// `a + k`, wrapped around the width of `usize`.
pub open spec fn wrap_add(a: usize, k: int) -> usize {
    ((a as int + k) % usize_modulus()) as usize
}

/// How far `idx` lies after `offset`, counting across the wraparound point.
pub open spec fn distance(offset: usize, idx: usize) -> int {
    if idx >= offset {
        idx - offset
    } else {
        idx + usize_modulus() - offset
    }
}

/// Advancing `offset` by its distance to `idx` reaches `idx`.
pub proof fn lemma_distance_reaches(offset: usize, idx: usize)
    ensures
        0 <= distance(offset, idx) < usize_modulus(),
        wrap_add(offset, distance(offset, idx)) == idx,
{
    if idx < offset {
        vstd::arithmetic::div_mod::lemma_mod_add_multiples_vanish(idx as int, usize_modulus());
    }
    vstd::arithmetic::div_mod::lemma_small_mod(idx as nat, usize_modulus() as nat);
}

/// The distance from `offset` to `offset` advanced by `k` is `k`, for any
/// `k` short of a full turn.
pub proof fn lemma_distance_of_wrap(offset: usize, k: int)
    requires
        0 <= k < usize_modulus(),
    ensures
        distance(offset, wrap_add(offset, k)) == k,
{
    if offset + k < usize_modulus() {
        vstd::arithmetic::div_mod::lemma_small_mod((offset + k) as nat, usize_modulus() as nat);
    } else {
        vstd::arithmetic::div_mod::lemma_mod_add_multiples_vanish(offset + k - usize_modulus(), usize_modulus());
        vstd::arithmetic::div_mod::lemma_small_mod((offset + k - usize_modulus()) as nat, usize_modulus() as nat);
    }
}

/// Stateless helpers that map absolute indices and cursors to slot ranges.
pub struct IndexUtil;

impl IndexUtil {
    /// The two contiguous slot ranges that cover the cyclic range
    /// `[head, tail)` of a slot array of `len` cells.
    pub fn calc_range(head: usize, tail: usize, len: usize) -> (r: (Range<usize>, Range<usize>))
        ensures
            head < tail ==> r.0.start == head && r.0.end == tail && r.1.start == 0 && r.1.end
                == 0,
            head > tail ==> r.0.start == head && r.0.end == len && r.1.start == 0 && r.1.end
                == tail,
            head == tail ==> r.0.start == 0 && r.0.end == 0 && r.1.start == 0 && r.1.end == 0,
    {
        if head < tail {
            (Range { start: head, end: tail }, Range { start: 0, end: 0 })
        } else if head > tail {
            (Range { start: head, end: len }, Range { start: 0, end: tail })
        } else {
            (Range { start: 0, end: 0 }, Range { start: 0, end: 0 })
        }
    }

    /// The live position of absolute index `idx` in a region of `filled_size`
    /// items whose first item has absolute index `offset`, if it lies there.
    /// The region may straddle the wraparound point of `usize`.
    pub fn exists_index(idx: usize, offset: usize, filled_size: usize) -> (r: Option<usize>)
        ensures
            r == (if distance(offset, idx) < filled_size {
                Some(distance(offset, idx) as usize)
            } else {
                None
            }),
            r matches Some(k) ==> wrap_add(offset, k as int) == idx,
    {
        let mut rslt = None;
        if idx >= offset {
            let i = idx - offset;
            if i < filled_size {
                rslt = Some(i);
            }
        } else if filled_size > 0 {
            let dist_to_max = usize::MAX - offset;
            if filled_size - 1 > dist_to_max {
                let over_size = (filled_size - 1) - dist_to_max;
                if idx < over_size {
                    rslt = Some(dist_to_max + 1 + idx);
                }
            }
        }
        proof {
            if let Some(k) = rslt {
                assert(wrap_add(offset, k as int) == idx) by {
                    if idx < offset {
                        assert((offset as int + k as int) == idx as int + usize_modulus());
                        vstd::arithmetic::div_mod::lemma_mod_add_multiples_vanish(
                            idx as int,
                            usize_modulus(),
                        );
                        vstd::arithmetic::div_mod::lemma_small_mod(idx as nat, usize_modulus() as nat);
                    } else {
                        vstd::arithmetic::div_mod::lemma_small_mod(idx as nat, usize_modulus() as nat);
                    }
                }
            }
        }
        rslt
    }
}

} // verus!

//! Mathematical model of the selection passes.
//!
//! The spec functions here define, over `Seq`, exactly what the executable
//! functions in the crate root return: which values pass the allow-filter,
//! which value is nearest to a preference, and how duplicates are removed.

use vstd::prelude::*;
use crate::Value;

verus! {

/// A sequence of filter values contains the wildcard.
pub open spec fn has_any(s: Seq<Value>) -> bool {
    exists|i: int| 0 <= i < s.len() && s[i] == Value::Any
}

/// The intersection of `avail` and the numbers of `allowed`: each value that
/// occurs in both, once, in order of its first appearance in `allowed`;
/// wildcard entries contribute nothing.
pub open spec fn allowed_reduction(avail: Seq<i32>, allowed: Seq<Value>) -> Seq<i32>
    decreases allowed.len(),
{
    if allowed.len() == 0 {
        Seq::empty()
    } else {
        let rest = allowed_reduction(avail, allowed.drop_last());
        match allowed.last() {
            Value::Number(n) => if avail.contains(n) && !rest.contains(n) {
                rest.push(n)
            } else {
                rest
            },
            Value::Any => rest,
        }
    }
}

/// Some element of `s` is strictly greater than `p`.
pub open spec fn has_above(s: Seq<i32>, p: i32) -> bool {
    exists|i: int| 0 <= i < s.len() && s[i] > p
}

/// The smallest element of `s` that is strictly greater than `p`.
/// Meaningful only when `has_above(s, p)` holds.
pub open spec fn min_above(s: Seq<i32>, p: i32) -> i32
    recommends has_above(s, p),
    decreases s.len(),
{
    if s.len() == 0 {
        p
    } else {
        let rest = s.drop_last();
        if s.last() > p {
            if has_above(rest, p) && min_above(rest, p) <= s.last() {
                min_above(rest, p)
            } else {
                s.last()
            }
        } else {
            min_above(rest, p)
        }
    }
}

/// The greatest element of `s`. Meaningful only when `s` is non-empty.
pub open spec fn max_of(s: Seq<i32>) -> i32
    recommends s.len() > 0,
    decreases s.len(),
{
    if s.len() <= 1 {
        s[0]
    } else if s.last() >= max_of(s.drop_last()) {
        s.last()
    } else {
        max_of(s.drop_last())
    }
}

/// The value of `s` selected for the preference `p`: `p` itself when present,
/// otherwise the smallest value above `p`, otherwise the greatest value
/// (every element is then below `p`). Meaningful only for non-empty `s`.
pub open spec fn nearest(s: Seq<i32>, p: i32) -> i32
    recommends s.len() > 0,
{
    if s.contains(p) {
        p
    } else if has_above(s, p) {
        min_above(s, p)
    } else {
        max_of(s)
    }
}

/// The nearest value for each numeric preference, in preference order,
/// duplicates not yet removed. Meaningful only for non-empty `avail`.
pub open spec fn preferred_reduction(avail: Seq<i32>, preferred: Seq<Value>) -> Seq<i32>
    recommends avail.len() > 0,
    decreases preferred.len(),
{
    if preferred.len() == 0 {
        Seq::empty()
    } else {
        let rest = preferred_reduction(avail, preferred.drop_last());
        match preferred.last() {
            Value::Number(p) => rest.push(nearest(avail, p)),
            Value::Any => rest,
        }
    }
}

/// `s` with every repeated value removed, keeping the first occurrence of
/// each value in its original position.
pub open spec fn dedup(s: Seq<i32>) -> Seq<i32>
    decreases s.len(),
{
    if s.len() == 0 {
        Seq::empty()
    } else if s.drop_last().contains(s.last()) {
        dedup(s.drop_last())
    } else {
        dedup(s.drop_last()).push(s.last())
    }
}

/// The full preferred pass: empty for an empty universe, otherwise the
/// deduplicated nearest values.
pub open spec fn preferred_selection(avail: Seq<i32>, preferred: Seq<Value>) -> Seq<i32> {
    if avail.len() == 0 {
        Seq::empty()
    } else {
        dedup(preferred_reduction(avail, preferred))
    }
}

/// The whole selection: a wildcard in `allowed` skips the allow-filter, a
/// wildcard in `preferred` skips the preferred pass, and with both wildcards
/// the universe is returned unchanged.
pub open spec fn attempt_spec(avail: Seq<i32>, allowed: Seq<Value>, preferred: Seq<Value>) -> Seq<i32> {
    if has_any(allowed) && has_any(preferred) {
        avail
    } else if has_any(allowed) {
        preferred_selection(avail, preferred)
    } else if has_any(preferred) {
        allowed_reduction(avail, allowed)
    } else {
        preferred_selection(allowed_reduction(avail, allowed), preferred)
    }
}

} // verus!

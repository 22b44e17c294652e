//! Selection of integer values from an available universe, constrained by an
//! allow-list and biased toward a preference list.
//!
//! The entry point [`attempt`] composes two passes: [`reduce_by_allowed`]
//! keeps the values that the allow-list names, and [`reduce_by_preferred`]
//! snaps each preference to the nearest remaining value. A [`Value::Any`]
//! wildcard in a list skips the corresponding pass.

use vstd::prelude::*;

pub mod laws;
pub mod model;

use crate::model::{
    allowed_reduction, attempt_spec, dedup, has_above, has_any, max_of, min_above, nearest,
    preferred_reduction, preferred_selection,
};

verus! {

/// An entry of the `allowed` and `preferred` lists.
#[derive(Clone, Copy, PartialEq, Eq, Structural, Debug)]
pub enum Value {
    /// Wildcard: the list containing it imposes no constraint.
    Any,
    /// A concrete candidate value.
    Number(i32),
}

/// Whether the list contains the wildcard.
fn contains_any(values: &Vec<Value>) -> (r: bool)
    ensures
        r == has_any(values@),
{
    let mut i: usize = 0;
    while i < values.len()
        invariant
            i <= values.len(),
            forall|j: int| 0 <= j < i ==> values@[j] != Value::Any,
        decreases values.len() - i,
    {
        if let Value::Any = values[i] {
            return true;
        }
        i += 1;
    }
    false
}

/// Whether `values` contains `x`.
fn contains_number(values: &Vec<i32>, x: i32) -> (r: bool)
    ensures
        r == values@.contains(x),
{
    let mut i: usize = 0;
    while i < values.len()
        invariant
            i <= values.len(),
            forall|j: int| 0 <= j < i ==> values@[j] != x,
        decreases values.len() - i,
    {
        if values[i] == x {
            return true;
        }
        i += 1;
    }
    false
}

/// The allow-filter pass: the intersection of `original` and the numbers of
/// `allowed`, each common value once, in order of its first appearance in
/// `allowed`. Wildcard entries of `allowed` are skipped; they do not disable
/// the pass here.
pub fn reduce_by_allowed(original: &Vec<i32>, allowed: &Vec<Value>) -> (r: Vec<i32>)
    ensures
        r@ == allowed_reduction(original@, allowed@),
{
    let mut out: Vec<i32> = Vec::new();
    let mut i: usize = 0;
    while i < allowed.len()
        invariant
            i <= allowed.len(),
            out@ == allowed_reduction(original@, allowed@.subrange(0, i as int)),
        decreases allowed.len() - i,
    {
        let ghost prefix = allowed@.subrange(0, i as int);
        let ghost extended = allowed@.subrange(0, i as int + 1);
        if let Value::Number(n) = allowed[i] {
            if contains_number(original, n) && !contains_number(&out, n) {
                out.push(n);
            }
        }
        proof {
            assert(extended.drop_last() =~= prefix);
            assert(extended.last() == allowed@[i as int]);
        }
        i += 1;
    }
    proof {
        assert(allowed@.subrange(0, allowed@.len() as int) =~= allowed@);
    }
    out
}

/// The value of the non-empty `original` nearest to the preference `p`:
/// `p` itself when present, otherwise the smallest value above `p`,
/// otherwise the greatest value.
fn nearest_value(original: &Vec<i32>, p: i32) -> (r: i32)
    requires
        original.len() > 0,
    ensures
        r == nearest(original@, p),
{
    let mut found: bool = false;
    let mut found_above: bool = false;
    let mut above: i32 = 0;
    let mut greatest: i32 = original[0];
    let mut i: usize = 0;
    while i < original.len()
        invariant
            i <= original.len(),
            original.len() > 0,
            found == original@.subrange(0, i as int).contains(p),
            found_above == has_above(original@.subrange(0, i as int), p),
            found_above ==> above == min_above(original@.subrange(0, i as int), p),
            i == 0 ==> greatest == original@[0],
            i > 0 ==> greatest == max_of(original@.subrange(0, i as int)),
        decreases original.len() - i,
    {
        let ghost prefix = original@.subrange(0, i as int);
        let ghost extended = original@.subrange(0, i as int + 1);
        let v = original[i];
        proof {
            assert(extended.drop_last() =~= prefix);
            assert(extended.last() == original@[i as int]);
        }
        if v == p {
            found = true;
        }
        if v > p && (!found_above || v < above) {
            found_above = true;
            above = v;
        }
        if v > greatest {
            greatest = v;
        }
        i += 1;
    }
    proof {
        assert(original@.subrange(0, original@.len() as int) =~= original@);
    }
    if found {
        p
    } else if found_above {
        above
    } else {
        greatest
    }
}

/// `values` with repeated entries removed, the first occurrence of each
/// value kept in place.
fn dedup_values(values: &Vec<i32>) -> (r: Vec<i32>)
    ensures
        r@ == dedup(values@),
{
    let mut out: Vec<i32> = Vec::new();
    let mut i: usize = 0;
    while i < values.len()
        invariant
            i <= values.len(),
            out@ == dedup(values@.subrange(0, i as int)),
            forall|x: i32| out@.contains(x) == values@.subrange(0, i as int).contains(x),
        decreases values.len() - i,
    {
        let ghost prefix = values@.subrange(0, i as int);
        let ghost extended = values@.subrange(0, i as int + 1);
        let v = values[i];
        let ghost entering = out@;
        if !contains_number(&out, v) {
            out.push(v);
        }
        proof {
            broadcast use vstd::seq_lib::lemma_seq_contains_after_push;

            assert(extended.drop_last() =~= prefix);
            assert(extended.last() == values@[i as int]);
            assert(extended =~= prefix.push(v));
            if !entering.contains(v) {
                assert(out@ == entering.push(v));
            }
        }
        i += 1;
    }
    proof {
        assert(values@.subrange(0, values@.len() as int) =~= values@);
    }
    out
}

/// The preferred pass: the nearest value for each numeric preference, in
/// preference order, with repeated results removed (first occurrence kept).
/// Wildcard entries of `preferred` are skipped; they do not disable the pass
/// here. An empty `original` yields an empty result.
pub fn reduce_by_preferred(original: &Vec<i32>, preferred: &Vec<Value>) -> (r: Vec<i32>)
    ensures
        r@ == preferred_selection(original@, preferred@),
{
    if original.len() == 0 {
        return Vec::new();
    }
    let mut picks: Vec<i32> = Vec::new();
    let mut i: usize = 0;
    while i < preferred.len()
        invariant
            i <= preferred.len(),
            original.len() > 0,
            picks@ == preferred_reduction(original@, preferred@.subrange(0, i as int)),
        decreases preferred.len() - i,
    {
        let ghost prefix = preferred@.subrange(0, i as int);
        let ghost extended = preferred@.subrange(0, i as int + 1);
        if let Value::Number(p) = preferred[i] {
            let n = nearest_value(original, p);
            picks.push(n);
        }
        proof {
            assert(extended.drop_last() =~= prefix);
            assert(extended.last() == preferred@[i as int]);
        }
        i += 1;
    }
    proof {
        assert(preferred@.subrange(0, preferred@.len() as int) =~= preferred@);
    }
    dedup_values(&picks)
}

/// Copies a list of values.
fn copy_values(values: &Vec<i32>) -> (r: Vec<i32>)
    ensures
        r@ == values@,
{
    let mut out: Vec<i32> = Vec::new();
    let mut i: usize = 0;
    while i < values.len()
        invariant
            i <= values.len(),
            out@ == values@.subrange(0, i as int),
        decreases values.len() - i,
    {
        out.push(values[i]);
        proof {
            assert(values@.subrange(0, i as int + 1) =~= values@.subrange(
                0,
                i as int,
            ).push(values@[i as int]));
        }
        i += 1;
    }
    proof {
        assert(values@.subrange(0, values@.len() as int) =~= values@);
    }
    out
}

/// Selects from `available` the values that `allowed` admits and `preferred`
/// asks for: with a wildcard in both lists `available` is returned unchanged,
/// a wildcard in one list skips that list's pass, and otherwise the
/// allow-filter runs first and the preferred pass reduces its result.
pub fn attempt(available: &Vec<i32>, allowed: &Vec<Value>, preferred: &Vec<Value>) -> (r: Vec<i32>)
    ensures
        r@ == attempt_spec(available@, allowed@, preferred@),
{
    let allowed_any = contains_any(allowed);
    let preferred_any = contains_any(preferred);
    if allowed_any && preferred_any {
        return copy_values(available);
    }
    if allowed_any {
        return reduce_by_preferred(available, preferred);
    }
    if preferred_any {
        return reduce_by_allowed(available, allowed);
    }
    let narrowed = reduce_by_allowed(available, allowed);
    reduce_by_preferred(&narrowed, preferred)
}

} // verus!

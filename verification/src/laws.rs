//! Properties of the selection passes, proved over the model.

use vstd::prelude::*;
use vstd::seq_lib::lemma_seq_contains_after_push;
use crate::Value;
use crate::model::{
    allowed_reduction, attempt_spec, dedup, has_above, max_of, min_above, nearest, has_any,
    preferred_reduction, preferred_selection,
};

verus! {

/// The smallest value above `p` is an element of `s`.
proof fn lemma_min_above_in(s: Seq<i32>, p: i32)
    requires
        has_above(s, p),
    ensures
        s.contains(min_above(s, p)),
    decreases s.len(),
{
    broadcast use lemma_seq_contains_after_push;

    let rest = s.drop_last();
    assert(s =~= rest.push(s.last()));
    if s.last() > p {
        if has_above(rest, p) && min_above(rest, p) <= s.last() {
            lemma_min_above_in(rest, p);
        }
    } else {
        assert(has_above(rest, p)) by {
            let j = choose|j: int| 0 <= j < s.len() && s[j] > p;
            assert(rest[j] == s[j]);
        };
        lemma_min_above_in(rest, p);
    }
}

/// The greatest value of a non-empty sequence is one of its elements.
proof fn lemma_max_of_in(s: Seq<i32>)
    requires
        s.len() > 0,
    ensures
        s.contains(max_of(s)),
    decreases s.len(),
{
    broadcast use lemma_seq_contains_after_push;

    if s.len() <= 1 {
        assert(s[0] == max_of(s));
    } else {
        assert(s =~= s.drop_last().push(s.last()));
        if s.last() >= max_of(s.drop_last()) {
        } else {
            lemma_max_of_in(s.drop_last());
        }
    }
}

/// The value selected for a preference is an element of the sequence it was
/// selected from.
proof fn lemma_nearest_in(s: Seq<i32>, p: i32)
    requires
        s.len() > 0,
    ensures
        s.contains(nearest(s, p)),
{
    if s.contains(p) {
    } else if has_above(s, p) {
        lemma_min_above_in(s, p);
    } else {
        lemma_max_of_in(s);
    }
}

/// Removing duplicates keeps exactly the values that were present.
proof fn lemma_dedup_members(s: Seq<i32>)
    ensures
        forall|x: i32| #[trigger] dedup(s).contains(x) == s.contains(x),
    decreases s.len(),
{
    if s.len() == 0 {
    } else {
        let rest = s.drop_last();
        let last = s.last();
        lemma_dedup_members(rest);
        assert(s =~= rest.push(last));
        assert forall|x: i32| dedup(s).contains(x) == s.contains(x) by {
            lemma_seq_contains_after_push(rest, last, x);
            if !rest.contains(last) {
                lemma_seq_contains_after_push(dedup(rest), last, x);
            }
            assert(dedup(rest).contains(x) == rest.contains(x));
        };
    }
}

/// Removing duplicates never lengthens a sequence.
proof fn lemma_dedup_len(s: Seq<i32>)
    ensures
        dedup(s).len() <= s.len(),
    decreases s.len(),
{
    if s.len() == 0 {
    } else {
        lemma_dedup_len(s.drop_last());
    }
}

/// Before duplicates are removed, the preferred pass yields at most one
/// value per preference entry.
proof fn lemma_preferred_reduction_len(avail: Seq<i32>, preferred: Seq<Value>)
    ensures
        preferred_reduction(avail, preferred).len() <= preferred.len(),
    decreases preferred.len(),
{
    if preferred.len() == 0 {
    } else {
        lemma_preferred_reduction_len(avail, preferred.drop_last());
    }
}

/// Every value the preferred pass yields is an element of the non-empty
/// sequence it selected from.
proof fn lemma_preferred_reduction_members(avail: Seq<i32>, preferred: Seq<Value>)
    requires
        avail.len() > 0,
    ensures
        forall|x: i32| #[trigger] preferred_reduction(avail, preferred).contains(x)
            ==> avail.contains(x),
    decreases preferred.len(),
{
    if preferred.len() == 0 {
    } else {
        let rest = preferred.drop_last();
        lemma_preferred_reduction_members(avail, rest);
        assert forall|x: i32| preferred_reduction(avail, preferred).contains(x)
            implies avail.contains(x) by {
            match preferred.last() {
                Value::Number(p) => {
                    lemma_nearest_in(avail, p);
                    lemma_seq_contains_after_push(
                        preferred_reduction(avail, rest),
                        nearest(avail, p),
                        x,
                    );
                },
                Value::Any => (),
            }
            assert(preferred_reduction(avail, rest).contains(x) ==> avail.contains(x));
        };
    }
}

/// Every value the allow-filter keeps occurs in the universe and is named by
/// a numeric entry of the allow-list.
proof fn lemma_allowed_reduction_members(avail: Seq<i32>, allowed: Seq<Value>)
    ensures
        forall|x: i32| #[trigger] allowed_reduction(avail, allowed).contains(x)
            ==> avail.contains(x) && allowed.contains(Value::Number(x)),
    decreases allowed.len(),
{
    if allowed.len() == 0 {
    } else {
        let rest = allowed.drop_last();
        lemma_allowed_reduction_members(avail, rest);
        assert(allowed =~= rest.push(allowed.last()));
        assert forall|x: i32| allowed_reduction(avail, allowed).contains(x)
            implies avail.contains(x) && allowed.contains(Value::Number(x)) by {
            lemma_seq_contains_after_push(rest, allowed.last(), Value::Number(x));
            match allowed.last() {
                Value::Number(n) => {
                    if avail.contains(n) {
                        lemma_seq_contains_after_push(allowed_reduction(avail, rest), n, x);
                    }
                },
                Value::Any => (),
            }
            assert(allowed_reduction(avail, rest).contains(x) ==> avail.contains(x)
                && rest.contains(Value::Number(x)));
        };
    }
}

/// With no wildcard in either list, every selected value lies in the
/// intersection of the universe and the allow-list's numbers.
pub proof fn lemma_attempt_in_intersection(
    avail: Seq<i32>,
    allowed: Seq<Value>,
    preferred: Seq<Value>,
)
    requires
        !has_any(allowed),
        !has_any(preferred),
    ensures
        forall|x: i32| #[trigger] attempt_spec(avail, allowed, preferred).contains(x)
            ==> avail.contains(x) && allowed.contains(Value::Number(x)),
{
    let narrowed = allowed_reduction(avail, allowed);
    lemma_allowed_reduction_members(avail, allowed);
    if narrowed.len() > 0 {
        lemma_preferred_reduction_members(narrowed, preferred);
        lemma_dedup_members(preferred_reduction(narrowed, preferred));
    }
}

/// The preferred pass returns at most one value per preference entry.
pub proof fn lemma_preferred_selection_len(avail: Seq<i32>, preferred: Seq<Value>)
    ensures
        preferred_selection(avail, preferred).len() <= preferred.len(),
{
    if avail.len() > 0 {
        lemma_dedup_len(preferred_reduction(avail, preferred));
        lemma_preferred_reduction_len(avail, preferred);
    }
}

} // verus!

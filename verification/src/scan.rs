//! The paginated backward scan: the specification of which identifiers a
//! donor/recipient query yields, and the laws that hold of it.
//!
//! The scan walks identifiers from `upto - 1` down to 0, keeps those the
//! selector accepts, and stops once `limit` of them are kept. The descending
//! identifier order is the ordering contract: most recently appended first.

use vstd::prelude::*;

verus! {

/// The identifiers the backward scan yields, in the order it yields them:
/// the largest accepted identifiers below `upto`, descending, at most
/// `limit` of them.
pub open spec fn scan_ids(upto: int, sel: spec_fn(int) -> bool, limit: int) -> Seq<int>
    decreases upto,
{
    if upto <= 0 || limit <= 0 {
        Seq::empty()
    } else if sel(upto - 1) {
        seq![upto - 1] + scan_ids(upto - 1, sel, limit - 1)
    } else {
        scan_ids(upto - 1, sel, limit)
    }
}

/// How many identifiers below `upto` the selector accepts.
pub open spec fn match_count(upto: int, sel: spec_fn(int) -> bool) -> int
    decreases upto,
{
    if upto <= 0 {
        0
    } else {
        match_count(upto - 1, sel) + (if sel(upto - 1) {
            1int
        } else {
            0int
        })
    }
}

/// The count of accepted identifiers is never negative.
pub proof fn lemma_match_count_nonneg(upto: int, sel: spec_fn(int) -> bool)
    ensures
        match_count(upto, sel) >= 0,
    decreases upto,
{
    if upto > 0 {
        lemma_match_count_nonneg(upto - 1, sel);
    }
}

/// The shape of every scan result: no more than `limit` entries, each an
/// accepted identifier below `upto`, in strictly decreasing order. Strict
/// decrease makes the result a subsequence, in that order, of all accepted
/// identifiers listed descending.
pub proof fn lemma_scan_ids_shape(upto: int, sel: spec_fn(int) -> bool, limit: int)
    ensures
        scan_ids(upto, sel, limit).len() <= (if limit >= 0 {
            limit
        } else {
            0
        }),
        forall|k: int|
            0 <= k < scan_ids(upto, sel, limit).len() ==> 0 <= #[trigger] scan_ids(
                upto,
                sel,
                limit,
            )[k] < upto && sel(scan_ids(upto, sel, limit)[k]),
        forall|k1: int, k2: int|
            0 <= k1 < k2 < scan_ids(upto, sel, limit).len() ==> #[trigger] scan_ids(
                upto,
                sel,
                limit,
            )[k1] > #[trigger] scan_ids(upto, sel, limit)[k2],
    decreases upto,
{
    if upto <= 0 || limit <= 0 {
    } else {
        lemma_scan_ids_shape(upto - 1, sel, limit - 1);
        lemma_scan_ids_shape(upto - 1, sel, limit);
    }
}

/// A scan whose limit is zero yields nothing.
pub proof fn lemma_scan_ids_limit_zero(upto: int, sel: spec_fn(int) -> bool)
    ensures
        scan_ids(upto, sel, 0) == Seq::<int>::empty(),
{
}

/// A scan whose limit covers every match yields exactly the accepted
/// identifiers: as many entries as there are matches, and every accepted
/// identifier below `upto` is among them.
pub proof fn lemma_scan_ids_complete(upto: int, sel: spec_fn(int) -> bool, limit: int)
    requires
        limit >= match_count(upto, sel),
    ensures
        scan_ids(upto, sel, limit).len() == match_count(upto, sel),
        forall|i: int| 0 <= i < upto && sel(i) ==> scan_ids(upto, sel, limit).contains(i),
    decreases upto,
{
    lemma_match_count_nonneg(upto, sel);
    if upto <= 0 {
    } else {
        lemma_match_count_nonneg(upto - 1, sel);
        if sel(upto - 1) {
            lemma_scan_ids_complete(upto - 1, sel, limit - 1);
            let rest = scan_ids(upto - 1, sel, limit - 1);
            let whole = scan_ids(upto, sel, limit);
            assert(whole == seq![upto - 1] + rest);
            assert forall|i: int| 0 <= i < upto && sel(i) implies whole.contains(i) by {
                if i == upto - 1 {
                    assert(whole[0] == i);
                } else {
                    assert(rest.contains(i));
                    let k = choose|k: int| 0 <= k < rest.len() && rest[k] == i;
                    assert(whole[k + 1] == i);
                }
            }
        } else {
            lemma_scan_ids_complete(upto - 1, sel, limit);
        }
    }
}

/// The scan prefers the most recent matches: an accepted identifier that the
/// scan left out is smaller than every identifier it kept, and the scan only
/// ever leaves one out when it is full.
pub proof fn lemma_scan_ids_most_recent(upto: int, sel: spec_fn(int) -> bool, limit: int)
    ensures
        forall|i: int, k: int|
            #![trigger scan_ids(upto, sel, limit).contains(i), scan_ids(upto, sel, limit)[k]]
            0 <= i < upto && sel(i) && !scan_ids(upto, sel, limit).contains(i) && 0 <= k
                < scan_ids(upto, sel, limit).len() ==> scan_ids(upto, sel, limit)[k] > i,
        forall|i: int|
            #![trigger scan_ids(upto, sel, limit).contains(i)]
            0 <= i < upto && sel(i) && !scan_ids(upto, sel, limit).contains(i) ==> scan_ids(
                upto,
                sel,
                limit,
            ).len() == (if limit >= 0 {
                limit
            } else {
                0
            }),
    decreases upto,
{
    let whole = scan_ids(upto, sel, limit);
    if upto <= 0 || limit <= 0 {
    } else if sel(upto - 1) {
        lemma_scan_ids_most_recent(upto - 1, sel, limit - 1);
        lemma_scan_ids_shape(upto - 1, sel, limit - 1);
        let rest = scan_ids(upto - 1, sel, limit - 1);
        assert(whole == seq![upto - 1] + rest);
        assert(whole[0] == upto - 1);
        assert(whole.contains(upto - 1));
        assert forall|i: int|
            0 <= i < upto && sel(i) && !whole.contains(i) implies whole.len() == limit by {
            assert(i < upto - 1);
            assert(!rest.contains(i)) by {
                if rest.contains(i) {
                    let k = choose|k: int| 0 <= k < rest.len() && rest[k] == i;
                    assert(whole[k + 1] == i);
                    assert(whole.contains(i));
                }
            }
            assert(rest.len() == limit - 1);
        }
        assert forall|i: int, k: int|
            #![trigger whole.contains(i), whole[k]]
            0 <= i < upto && sel(i) && !whole.contains(i) && 0 <= k
                < whole.len() implies whole[k] > i by {
            assert(i < upto - 1);
            assert(!rest.contains(i)) by {
                if rest.contains(i) {
                    let j = choose|j: int| 0 <= j < rest.len() && rest[j] == i;
                    assert(whole[j + 1] == i);
                    assert(whole.contains(i));
                }
            }
            if k > 0 {
                assert(whole[k] == rest[k - 1]);
            }
        }
    } else {
        lemma_scan_ids_most_recent(upto - 1, sel, limit);
        assert(whole == scan_ids(upto - 1, sel, limit));
    }
}

} // verus!

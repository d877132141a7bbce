//! The ledger's laws: what holds of every sequence of operations, proved once
//! and for all over the model that the operation contracts speak of.

use vstd::prelude::*;

use crate::ledger::{donor_sel, lemma_sum_donated_push, store_at, sum_donated, Donation};
use crate::records::{DonationRecord, Identity};
use crate::scan::{
    lemma_scan_ids_complete, lemma_scan_ids_limit_zero, lemma_scan_ids_most_recent,
    lemma_scan_ids_shape, match_count, scan_ids,
};

verus! {

/// A successful `donate` on a ledger that was never re-initialized mid-life
/// appends: the new record stands at the returned identifier (the counter
/// before the call, so the Nth success gets identifier N-1), the log grows by
/// exactly one, and every earlier record is exactly what it was. Together
/// with `donate`'s contract and `new`'s, by induction: after N successful
/// donations the counter reads N and `get_donation(i)` returns the ith
/// submitted record for every i below N.
pub proof fn lemma_append_extends(pre: Seq<DonationRecord>, id: int, rec: DonationRecord)
    requires
        id == pre.len(),
    ensures
        store_at(pre, id, rec) == pre.push(rec),
        store_at(pre, id, rec).len() == pre.len() + 1,
        store_at(pre, id, rec)[id] == rec,
        forall|j: int| 0 <= j < pre.len() ==> store_at(pre, id, rec)[j] == pre[j],
{
}

/// In a consistent ledger every recipient's reported running total equals the
/// exact sum of `amount` over the stored records to that recipient. `new`
/// establishes consistency and `donate` preserves it (their contracts), so
/// this holds after every intermixed sequence of donations to any mix of
/// recipients.
pub proof fn lemma_total_is_exact_sum(d: Donation, who: Identity)
    requires
        d.consistent(),
    ensures
        d.total_of(who) == sum_donated(d.log(), who),
{
}

/// One successful donation step: exactly the relation `donate`'s contract
/// guarantees between the ledger before and after an `Ok` return that stored
/// `rec` (counter up by one, record stored at the old counter, the
/// recipient's total moved by the amount, every other total untouched).
pub open spec fn donate_step(pre: Donation, post: Donation, rec: DonationRecord) -> bool {
    &&& post.counter() == pre.counter() + 1
    &&& post.log() == store_at(pre.log(), pre.counter() as int, rec)
    &&& post.total_of(rec.recipient) == pre.total_of(rec.recipient) + rec.amount
    &&& forall|who: Identity|
        who != rec.recipient ==> post.total_of(who) == pre.total_of(who)
}

/// The state a fresh ledger starts in, as `new`'s contract guarantees it.
pub open spec fn fresh_ledger(d: Donation) -> bool {
    &&& d.counter() == 0
    &&& d.log() == Seq::<DonationRecord>::empty()
    &&& forall|who: Identity| d.total_of(who) == 0
}

/// `states` is a run of the ledger: it starts fresh, and its k-th step is a
/// successful donation that stored `subs[k]`.
pub open spec fn ledger_run(states: Seq<Donation>, subs: Seq<DonationRecord>) -> bool {
    &&& states.len() == subs.len() + 1
    &&& fresh_ledger(states[0])
    &&& forall|k: int| 0 <= k < subs.len() ==> #[trigger] donate_step(states[k], states[k + 1], subs[k])
}

/// The ledger replays its submissions. After any run of N successful
/// donations from a fresh ledger the counter reads N, the log is exactly the
/// submitted records in submission order — so every identifier below N
/// resolves to its record as submitted, and the Nth success was numbered
/// N-1 — and every recipient's total is the exact sum over the submissions.
pub proof fn lemma_ledger_replays_submissions(states: Seq<Donation>, subs: Seq<DonationRecord>)
    requires
        ledger_run(states, subs),
    ensures
        states.last().counter() as int == subs.len(),
        states.last().log() == subs,
        forall|who: Identity|
            states.last().total_of(who) == sum_donated(subs, who),
    decreases subs.len(),
{
    if subs.len() == 0 {
        assert(states.last().log() =~= subs);
    } else {
        let shorter = states.drop_last();
        let mid = shorter.last();
        assert(ledger_run(shorter, subs.drop_last())) by {
            assert(forall|k: int|
                0 <= k < subs.len() - 1 ==> shorter[k] == states[k] && shorter[k + 1] == states[k
                    + 1] && subs.drop_last()[k] == subs[k]);
        }
        lemma_ledger_replays_submissions(shorter, subs.drop_last());
        assert(donate_step(states[subs.len() - 1], states[subs.len() as int], subs[subs.len()
            - 1]));
        assert(mid.counter() as int == mid.log().len());
        assert(states.last().log() == mid.log().push(subs.last()));
        assert(states.last().log() =~= subs);
        assert forall|who: Identity| states.last().total_of(who) == sum_donated(subs, who) by {
            lemma_sum_donated_push(subs.drop_last(), subs.last(), who);
            assert(subs.drop_last().push(subs.last()) =~= subs);
        }
    }
}

/// Idempotence of reads. Every read operation borrows the ledger immutably
/// and its postcondition determines its result from the ledger state alone,
/// so two calls with no intervening write return the same values. Spelled
/// out: any two outcomes meeting the reads' postconditions on one and the
/// same state are equal.
pub proof fn lemma_reads_idempotent(
    d: Donation,
    id: u64,
    who: Identity,
    count1: u64,
    count2: u64,
    rec1: Option<DonationRecord>,
    rec2: Option<DonationRecord>,
    tot1: i128,
    tot2: i128,
)
    requires
        count1 == d.counter(),
        count2 == d.counter(),
        id < d.log().len() ==> rec1 == Some(d.log()[id as int]) && rec2 == Some(
            d.log()[id as int],
        ),
        id >= d.log().len() ==> rec1 is None && rec2 is None,
        tot1 as int == d.total_of(who),
        tot2 as int == d.total_of(who),
    ensures
        count1 == count2,
        rec1 == rec2,
        tot1 == tot2,
{
}

/// The shape of every donor query: at most `limit` identifiers are yielded,
/// each a stored identifier below the counter whose record has the asked-for
/// donor, in strictly decreasing identifier order. The records handed back
/// are exactly those identifiers' records, so the query's result is a
/// subsequence, most recent first, of the log filtered by donor.
pub proof fn lemma_donor_query_shape(d: Donation, donor: Identity, limit: int)
    requires
        d.wf(),
        limit >= 0,
    ensures
        ({
            let ids = scan_ids(d.counter() as int, donor_sel(d.log(), donor), limit);
            &&& ids.len() <= limit
            &&& forall|k: int|
                0 <= k < ids.len() ==> 0 <= #[trigger] ids[k] < d.counter() && d.log()[ids[k]].donor
                    == donor
            &&& forall|k1: int, k2: int|
                0 <= k1 < k2 < ids.len() ==> #[trigger] ids[k1] > #[trigger] ids[k2]
        }),
{
    lemma_scan_ids_shape(d.counter() as int, donor_sel(d.log(), donor), limit);
}

/// The two ends of pagination for a donor query. A limit of zero yields
/// nothing. A limit at or above the number of matching records yields exactly
/// the matching identifiers: as many entries as matches, every matching
/// identifier among them, and (with the shape law) nothing else.
pub proof fn lemma_donor_query_limits(d: Donation, donor: Identity, limit: int)
    requires
        d.wf(),
    ensures
        scan_ids(d.counter() as int, donor_sel(d.log(), donor), 0) == Seq::<int>::empty(),
        limit >= match_count(d.counter() as int, donor_sel(d.log(), donor)) ==> scan_ids(
            d.counter() as int,
            donor_sel(d.log(), donor),
            limit,
        ).len() == match_count(d.counter() as int, donor_sel(d.log(), donor)),
        limit >= match_count(d.counter() as int, donor_sel(d.log(), donor)) ==> forall|i: int|
            0 <= i < d.counter() && d.log()[i].donor == donor ==> #[trigger] scan_ids(
                d.counter() as int,
                donor_sel(d.log(), donor),
                limit,
            ).contains(i),
{
    let sel = donor_sel(d.log(), donor);
    lemma_scan_ids_limit_zero(d.counter() as int, sel);
    if limit >= match_count(d.counter() as int, sel) {
        lemma_scan_ids_complete(d.counter() as int, sel, limit);
    }
}

/// Pagination truncates from the old end only: a matching identifier a donor
/// query left out is older (smaller) than everything it kept, and is only
/// ever left out when the query came back full.
pub proof fn lemma_donor_query_most_recent(d: Donation, donor: Identity, limit: int)
    requires
        d.wf(),
        limit >= 0,
    ensures
        forall|i: int, k: int|
            #![trigger scan_ids(d.counter() as int, donor_sel(d.log(), donor), limit).contains(i),
            scan_ids(d.counter() as int, donor_sel(d.log(), donor), limit)[k]]
            0 <= i < d.counter() && d.log()[i].donor == donor && !scan_ids(
                d.counter() as int,
                donor_sel(d.log(), donor),
                limit,
            ).contains(i) && 0 <= k < scan_ids(
                d.counter() as int,
                donor_sel(d.log(), donor),
                limit,
            ).len() ==> scan_ids(d.counter() as int, donor_sel(d.log(), donor), limit)[k] > i,
        forall|i: int|
            #![trigger scan_ids(d.counter() as int, donor_sel(d.log(), donor), limit).contains(i)]
            0 <= i < d.counter() && d.log()[i].donor == donor && !scan_ids(
                d.counter() as int,
                donor_sel(d.log(), donor),
                limit,
            ).contains(i) ==> scan_ids(d.counter() as int, donor_sel(d.log(), donor), limit).len()
                == limit,
{
    lemma_scan_ids_most_recent(d.counter() as int, donor_sel(d.log(), donor), limit);
}

} // verus!

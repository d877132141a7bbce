//! The donation ledger: an append-only, indexed record store with a monotonic
//! counter and derived per-recipient aggregates.
//!
//! Authorization and timestamps are host concerns: `donate` takes the outcome
//! of the caller-identity check and the current logical time as plain values,
//! and is a pure function of the ledger state and its arguments.

use vstd::prelude::*;

use crate::records::{DonationError, DonationRecord, Identity};
use crate::scan::scan_ids;
use crate::totals::Totals;

verus! {

/// Selects the identifiers of `log` whose record was donated by `donor`.
pub open spec fn donor_sel(log: Seq<DonationRecord>, donor: Identity) -> spec_fn(int) -> bool {
    |i: int| log[i].donor == donor
}

/// Selects the identifiers of `log` whose record was donated to `recipient`.
pub open spec fn recipient_sel(log: Seq<DonationRecord>, recipient: Identity) -> spec_fn(
    int,
) -> bool {
    |i: int| log[i].recipient == recipient
}

/// The exact sum of `amount` over the records in `log` whose recipient is
/// `who`, as a mathematical integer.
pub open spec fn sum_donated(log: Seq<DonationRecord>, who: Identity) -> int
    decreases log.len(),
{
    if log.len() == 0 {
        0
    } else {
        sum_donated(log.drop_last(), who) + (if log.last().recipient == who {
            log.last().amount as int
        } else {
            0
        })
    }
}

/// Appending a record moves the sum for its recipient by the record's amount
/// and leaves every other sum alone.
pub proof fn lemma_sum_donated_push(log: Seq<DonationRecord>, rec: DonationRecord, who: Identity)
    ensures
        sum_donated(log.push(rec), who) == sum_donated(log, who) + (if rec.recipient == who {
            rec.amount as int
        } else {
            0
        }),
{
    assert(log.push(rec).last() == rec);
    assert(log.push(rec).drop_last() =~= log);
}

/// Where an append at identifier `id` lands: inside the log it overwrites
/// (that happens only after a re-initialization); at the end it extends.
pub open spec fn store_at(log: Seq<DonationRecord>, id: int, rec: DonationRecord) -> Seq<
    DonationRecord,
> {
    if id < log.len() {
        log.update(id, rec)
    } else {
        log.push(rec)
    }
}

/// `v` lies in the signed 128-bit range.
pub open spec fn fits_i128(v: int) -> bool {
    i128::MIN <= v <= i128::MAX
}

/// The donation ledger state: the record store, the donation counter, and the
/// per-recipient aggregate table.
pub struct Donation {
    records: Vec<DonationRecord>,
    count: u64,
    totals: Totals,
}

impl Donation {
    /// The stored records, ordered by identifier: the record with identifier
    /// `i` is `self.log()[i]`.
    pub closed spec fn log(self) -> Seq<DonationRecord> {
        self.records@
    }

    /// The value of the donation counter.
    pub closed spec fn counter(self) -> u64 {
        self.count
    }

    /// The recorded running total for `who`; zero when nothing was ever
    /// donated to `who`.
    pub closed spec fn total_of(self, who: Identity) -> int {
        self.totals.total_of(who)
    }

    /// Structural well-formedness: the counter never runs ahead of the record
    /// store, and the aggregate table holds one entry per recipient.
    pub closed spec fn wf(self) -> bool {
        &&& self.count as int <= self.records@.len()
        &&& self.totals.wf()
    }

    /// The data-model invariant of a ledger that was never re-initialized
    /// mid-life: the counter counts exactly the stored records, and every
    /// recipient's aggregate equals the exact sum of amounts over the log.
    /// A repeated `initialize` after donations exist breaks this on purpose
    /// (a documented hazard of the design); `donate` preserves it.
    pub open spec fn consistent(self) -> bool {
        &&& self.counter() as int == self.log().len()
        &&& forall|who: Identity| #[trigger]
            self.total_of(who) == sum_donated(self.log(), who)
    }

    /// A fresh, empty ledger.
    pub fn new() -> (r: Self)
        ensures
            r.wf(),
            r.consistent(),
            r.counter() == 0,
            r.log() == Seq::<DonationRecord>::empty(),
            forall|who: Identity| r.total_of(who) == 0,
    {
        let r = Donation { records: Vec::new(), count: 0, totals: Totals::new() };
        proof {
            assert(r.records@ =~= Seq::<DonationRecord>::empty());
        }
        r
    }

    /// Set the counter to zero. Run once before use; running it again resets
    /// the counter while records and aggregates stay, the documented
    /// de-synchronization hazard of the data model.
    pub fn initialize(&mut self)
        requires
            old(self).wf(),
        ensures
            final(self).wf(),
            final(self).counter() == 0,
            final(self).log() == old(self).log(),
            forall|who: Identity| final(self).total_of(who) == old(self).total_of(who),
    {
        self.count = 0;
    }

    /// The current donation counter, the number of donations appended since
    /// the last initialization.
    pub fn donation_count(&self) -> (r: u64)
        ensures
            r == self.counter(),
    {
        self.count
    }

    /// The record stored under `donation_id`, or nothing: an absent
    /// identifier is a valid outcome, never an error.
    pub fn get_donation(&self, donation_id: u64) -> (r: Option<DonationRecord>)
        ensures
            donation_id < self.log().len() ==> r == Some(self.log()[donation_id as int]),
            donation_id >= self.log().len() ==> r is None,
    {
        if donation_id < self.records.len() as u64 {
            Some(self.records[donation_id as usize].clone())
        } else {
            None
        }
    }

    /// The running total donated to `recipient`, zero when absent.
    pub fn total_donated(&self, recipient: Identity) -> (r: i128)
        ensures
            r as int == self.total_of(recipient),
    {
        self.totals.get(recipient)
    }

    /// Record a donation claim. No value moves here: the caller has already
    /// run the host's authorization check for `donor` and passes its outcome
    /// in `authorized`, together with the host's logical `timestamp`.
    ///
    /// On success the returned identifier is the counter before the call, the
    /// record is stored under it, the counter moves up by one, and the
    /// recipient's aggregate grows by `amount`. On any error nothing changes.
    /// The amount is not validated: zero, negative and extreme values are
    /// recorded as given.
    pub fn donate(
        &mut self,
        authorized: bool,
        timestamp: u64,
        donor: Identity,
        recipient: Identity,
        amount: i128,
        asset: Identity,
        memo: Option<String>,
    ) -> (r: Result<u64, DonationError>)
        requires
            old(self).wf(),
            old(self).counter() < u64::MAX,
        ensures
            final(self).wf(),
            r is Err ==> *final(self) == *old(self),
            !authorized <==> r == Err::<u64, DonationError>(DonationError::Unauthorized),
            authorized ==> ((r == Err::<u64, DonationError>(DonationError::Overflow)) <==> !fits_i128(
                old(self).total_of(recipient) + amount,
            )),
            r is Ok <==> (authorized && fits_i128(old(self).total_of(recipient) + amount)),
            r is Ok ==> {
                &&& r == Ok::<u64, DonationError>(old(self).counter())
                &&& final(self).counter() == old(self).counter() + 1
                &&& final(self).log() == store_at(
                    old(self).log(),
                    old(self).counter() as int,
                    (DonationRecord { donor, recipient, amount, asset, timestamp, memo }),
                )
                &&& final(self).total_of(recipient) == old(self).total_of(recipient) + amount
                &&& forall|who: Identity|
                    who != recipient ==> final(self).total_of(who) == old(self).total_of(who)
            },
            old(self).consistent() && r is Ok ==> final(self).consistent(),
    {
        if !authorized {
            return Err(DonationError::Unauthorized);
        }
        let count = self.count;
        let current_total = self.totals.get(recipient);
        match current_total.checked_add(amount) {
            None => Err(DonationError::Overflow),
            Some(new_total) => {
                let rec = DonationRecord { donor, recipient, amount, asset, timestamp, memo };
                let ghost grec = rec;
                let ghost pre = *old(self);
                let idx = count as usize;
                if idx < self.records.len() {
                    let slot = &mut self.records[idx];
                    *slot = rec;
                } else {
                    self.records.push(rec);
                }
                self.count = count + 1;
                self.totals.set(recipient, new_total);
                proof {
                    if pre.consistent() {
                        assert(self.records@ == pre.log().push(grec));
                        assert forall|who: Identity| #[trigger] self.total_of(who) == sum_donated(
                            self.log(),
                            who,
                        ) by {
                            lemma_sum_donated_push(pre.log(), grec, who);
                            assert(self.log() == pre.log().push(grec));
                            if who == recipient {
                                assert(self.total_of(who) == new_total as int);
                                assert(new_total as int == pre.total_of(recipient) + amount);
                                assert(pre.total_of(recipient) == sum_donated(
                                    pre.log(),
                                    recipient,
                                ));
                            } else {
                                assert(self.total_of(who) == pre.total_of(who));
                                assert(pre.total_of(who) == sum_donated(pre.log(), who));
                            }
                        }
                    }
                }
                Ok(count)
            },
        }
    }

    /// The backward scan shared by the two paginated queries: walk the
    /// identifiers below the counter from the most recent down, keep the
    /// records whose donor (or, with `by_donor` false, recipient) is
    /// `target`, and stop at `limit` of them.
    fn scan_matching(&self, by_donor: bool, target: Identity, limit: u32) -> (r: Vec<
        DonationRecord,
    >)
        requires
            self.wf(),
        ensures
            r@ == scan_ids(
                self.counter() as int,
                if by_donor {
                    donor_sel(self.log(), target)
                } else {
                    recipient_sel(self.log(), target)
                },
                limit as int,
            ).map_values(|j: int| self.log()[j]),
    {
        let ghost sel = if by_donor {
            donor_sel(self.log(), target)
        } else {
            recipient_sel(self.log(), target)
        };
        let n = self.records.len();
        let mut result: Vec<DonationRecord> = Vec::new();
        let mut found: u32 = 0;
        let mut i: u64 = self.count;
        let ghost mut gids: Seq<int> = Seq::empty();
        proof {
            assert((Seq::<int>::empty() + scan_ids(i as int, sel, limit as int)) =~= scan_ids(
                i as int,
                sel,
                limit as int,
            ));
            assert(result@ =~= gids.map_values(|j: int| self.log()[j]));
        }
        while i > 0 && found < limit
            invariant
                self.wf(),
                i <= self.counter(),
                self.counter() as int <= n as int,
                n as int == self.log().len(),
                found <= limit,
                sel == (if by_donor {
                    donor_sel(self.log(), target)
                } else {
                    recipient_sel(self.log(), target)
                }),
                gids.len() == found as int,
                forall|k: int| 0 <= k < gids.len() ==> 0 <= #[trigger] gids[k] < self.counter(),
                scan_ids(self.counter() as int, sel, limit as int) == gids + scan_ids(
                    i as int,
                    sel,
                    (limit - found) as int,
                ),
                result@ == gids.map_values(|j: int| self.log()[j]),
            decreases i,
        {
            let ghost l0 = (limit - found) as int;
            let ghost gids0 = gids;
            i = i - 1;
            proof {
                assert(i < self.counter());
            }
            let rec = &self.records[i as usize];
            let hit = if by_donor {
                rec.donor == target
            } else {
                rec.recipient == target
            };
            if hit {
                result.push(rec.clone());
                found = found + 1;
                proof {
                    assert(*rec == self.log()[i as int]);
                    assert(sel(i as int));
                    assert(scan_ids(i as int + 1, sel, l0) == seq![i as int] + scan_ids(
                        i as int,
                        sel,
                        l0 - 1,
                    ));
                    gids = gids0 + seq![i as int];
                    assert((gids0 + (seq![i as int] + scan_ids(i as int, sel, l0 - 1))) =~= (gids
                        + scan_ids(i as int, sel, l0 - 1)));
                    assert(result@ =~= gids.map_values(|j: int| self.log()[j]));
                }
            } else {
                proof {
                    assert(!sel(i as int));
                    assert(scan_ids(i as int + 1, sel, l0) == scan_ids(i as int, sel, l0));
                }
            }
        }
        proof {
            assert(scan_ids(i as int, sel, (limit - found) as int) == Seq::<int>::empty());
            assert((gids + Seq::<int>::empty()) =~= gids);
        }
        result
    }

    /// The donations made by `donor`, most recently appended first, at most
    /// `limit` of them: the backward scan over the identifiers below the
    /// counter that keeps the records whose donor is `donor`.
    pub fn get_donor_donations(&self, donor: Identity, limit: u32) -> (r: Vec<DonationRecord>)
        requires
            self.wf(),
        ensures
            r@ == scan_ids(self.counter() as int, donor_sel(self.log(), donor), limit as int)
                .map_values(|j: int| self.log()[j]),
    {
        self.scan_matching(true, donor, limit)
    }

    /// The donations received by `recipient`, most recently appended first,
    /// at most `limit` of them: the backward scan over the identifiers below
    /// the counter that keeps the records whose recipient is `recipient`.
    pub fn get_recipient_donations(&self, recipient: Identity, limit: u32) -> (r: Vec<
        DonationRecord,
    >)
        requires
            self.wf(),
        ensures
            r@ == scan_ids(
                self.counter() as int,
                recipient_sel(self.log(), recipient),
                limit as int,
            ).map_values(|j: int| self.log()[j]),
    {
        self.scan_matching(false, recipient, limit)
    }
}

} // verus!

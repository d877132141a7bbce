//! The per-recipient aggregate: a table from identity to the running signed
//! 128-bit sum of everything ever donated to that identity. Absent entries
//! denote zero. The table is written only by the ledger's append operation.

use vstd::prelude::*;

use crate::records::Identity;

verus! {

/// The value an entry table associates with `who`: the second component of
/// the last pair whose key is `who`, or zero when no pair carries that key.
pub open spec fn lookup(entries: Seq<(Identity, i128)>, who: Identity) -> int
    decreases entries.len(),
{
    if entries.len() == 0 {
        0
    } else if entries.last().0 == who {
        entries.last().1 as int
    } else {
        lookup(entries.drop_last(), who)
    }
}

/// With at most one pair per key, the table's value for a key is the value of
/// its unique pair.
proof fn lemma_lookup_only(entries: Seq<(Identity, i128)>, who: Identity, k: int)
    requires
        0 <= k < entries.len(),
        entries[k].0 == who,
        forall|j: int| 0 <= j < entries.len() && j != k ==> entries[j].0 != who,
    ensures
        lookup(entries, who) == entries[k].1 as int,
    decreases entries.len(),
{
    if k == entries.len() - 1 {
    } else {
        assert(entries.drop_last()[k] == entries[k]);
        lemma_lookup_only(entries.drop_last(), who, k);
    }
}

/// Two tables that agree on every pair carrying a given key (position for
/// position) agree on that key's value.
proof fn lemma_lookup_congruent(
    s: Seq<(Identity, i128)>,
    t: Seq<(Identity, i128)>,
    who: Identity,
)
    requires
        s.len() == t.len(),
        forall|j: int|
            0 <= j < s.len() ==> ((s[j].0 == who <==> t[j].0 == who) && (s[j].0 == who
                ==> s[j] == t[j])),
    ensures
        lookup(s, who) == lookup(t, who),
    decreases s.len(),
{
    if s.len() > 0 {
        assert(forall|j: int| 0 <= j < s.len() - 1 ==> s.drop_last()[j] == s[j]);
        assert(forall|j: int| 0 <= j < t.len() - 1 ==> t.drop_last()[j] == t[j]);
        lemma_lookup_congruent(s.drop_last(), t.drop_last(), who);
    }
}

/// The aggregate table. Invariant: no identity appears in more than one pair.
pub struct Totals {
    entries: Vec<(Identity, i128)>,
}

impl Totals {
    /// Each key appears at most once.
    pub closed spec fn wf(self) -> bool {
        forall|i: int, j: int|
            0 <= i < j < self.entries@.len() ==> self.entries@[i].0 != self.entries@[j].0
    }

    /// The running total recorded for `who`; zero when no donation to `who`
    /// was ever recorded.
    pub closed spec fn total_of(self, who: Identity) -> int {
        lookup(self.entries@, who)
    }

    /// An empty table: every identity's total is zero.
    pub fn new() -> (r: Self)
        ensures
            r.wf(),
            forall|who: Identity| r.total_of(who) == 0,
    {
        Totals { entries: Vec::new() }
    }

    /// The stored total for `who`; an identity without a pair reads as zero.
    pub fn get(&self, who: Identity) -> (r: i128)
        ensures
            r as int == self.total_of(who),
    {
        let n = self.entries.len();
        let mut i: usize = n;
        proof {
            assert(self.entries@.take(n as int) =~= self.entries@);
        }
        while i > 0
            invariant
                i <= n,
                n == self.entries@.len(),
                lookup(self.entries@, who) == lookup(self.entries@.take(i as int), who),
                forall|j: int| i <= j < n ==> self.entries@[j].0 != who,
            decreases i,
        {
            i = i - 1;
            let pair = &self.entries[i];
            proof {
                let taken = self.entries@.take(i as int + 1);
                assert(taken.last() == self.entries@[i as int]);
                assert(taken.drop_last() =~= self.entries@.take(i as int));
            }
            if pair.0 == who {
                return pair.1;
            }
        }
        proof {
            assert(self.entries@.take(0).len() == 0);
        }
        0
    }

    /// Overwrite (or create) the pair for `who`; every other identity's total
    /// is untouched.
    pub fn set(&mut self, who: Identity, value: i128)
        requires
            old(self).wf(),
        ensures
            final(self).wf(),
            final(self).total_of(who) == value as int,
            forall|other: Identity|
                other != who ==> final(self).total_of(other) == old(self).total_of(other),
    {
        let ghost pre = self.entries@;
        let n = self.entries.len();
        let mut k: usize = 0;
        while k < n && self.entries[k].0 != who
            invariant
                k <= n,
                n == self.entries@.len(),
                forall|j: int| 0 <= j < k ==> self.entries@[j].0 != who,
            decreases n - k,
        {
            k = k + 1;
        }
        if k < n {
            let slot = &mut self.entries[k];
            slot.1 = value;
            proof {
                let post = self.entries@;
                assert(post == pre.update(k as int, (who, value)));
                assert(pre[k as int].0 == who);
                assert forall|j: int| 0 <= j < post.len() && j != k as int implies post[j].0
                    != who by {
                    assert(post[j] == pre[j]);
                    if j > k as int {
                        assert(pre[k as int].0 != pre[j].0);
                    }
                }
                assert(forall|j: int| 0 <= j < post.len() ==> post[j].0 == pre[j].0);
                lemma_lookup_only(post, who, k as int);
                assert forall|other: Identity| other != who implies lookup(post, other) == lookup(
                    pre,
                    other,
                ) by {
                    lemma_lookup_congruent(post, pre, other);
                }
            }
        } else {
            self.entries.push((who, value));
            proof {
                let post = self.entries@;
                assert(post == pre.push((who, value)));
                assert(post.last() == (who, value));
                assert(post.drop_last() =~= pre);
                assert forall|other: Identity| other != who implies lookup(post, other) == lookup(
                    pre,
                    other,
                ) by {
                    assert(post.last().0 != other);
                }
            }
        }
    }
}

} // verus!

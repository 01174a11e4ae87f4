//! Epoch-based reclamation: offsets retired while readers may still look at
//! them are held back until no reader is pinned and the epoch has moved on.

use vstd::prelude::*;
use vstd::multiset::Multiset;

verus! {

broadcast use {vstd::seq_lib::group_to_multiset_ensures, vstd::multiset::group_multiset_axioms};

#[derive(Debug, Clone, Copy, PartialEq, Eq, Structural)]
pub struct RetiredRecord {
    pub handle_offset: u64,
    pub retire_epoch: u64,
}

#[derive(Debug)]
pub struct EpochManager {
    global_epoch: u64,
    active_readers: u64,
    retired: Vec<RetiredRecord>,
}

/// Proof that a reader is pinned; handing it back to `EpochManager::unpin`
/// unpins the reader.  Dropping it does not: the reader stays pinned.
#[must_use]
pub struct EpochGuard {
    _pinned: (),
}

/// Removing element `i` by moving the last element into its place keeps
/// every other element.
pub proof fn lemma_swap_remove_multiset(s: Seq<RetiredRecord>, i: int)
    requires
        0 <= i < s.len(),
    ensures
        s.update(i, s.last()).drop_last().to_multiset().insert(s[i]) == s.to_multiset(),
{
    let u = s.update(i, s.last());
    assert(u.drop_last().push(u.last()) =~= u);
    assert(u.last() == s.last());
    assert(u.to_multiset() == s.to_multiset().insert(s.last()).remove(s[i]));
    assert(u.drop_last().to_multiset().insert(s.last()) == u.to_multiset());
    let d = u.drop_last().to_multiset();
    let m = s.to_multiset();
    assert(s.contains(s[i]));
    assert(m.count(s[i]) > 0);
    assert forall|v: RetiredRecord| #[trigger] d.insert(s[i]).count(v) == m.count(v) by {
        assert(d.insert(s.last()).count(v) == m.insert(s.last()).remove(s[i]).count(v));
    }
    assert(d.insert(s[i]) =~= m);
}

/// The order collection leaves things in: scanning `pending` from index
/// `i`, each record retired before `current` is appended to `out` and
/// replaced by the last pending record, which is looked at next; the result
/// is the records collected and those left pending.
pub open spec fn collect_order(
    pending: Seq<RetiredRecord>,
    i: int,
    current: u64,
    out: Seq<RetiredRecord>,
) -> (Seq<RetiredRecord>, Seq<RetiredRecord>)
    decreases pending.len() - i, pending.len(),
{
    if i < 0 || i >= pending.len() {
        (out, pending)
    } else if pending[i].retire_epoch < current {
        collect_order(pending.update(i, pending.last()).drop_last(), i, current, out.push(pending[i]))
    } else {
        collect_order(pending, i + 1, current, out)
    }
}

impl EpochManager {
    pub closed spec fn epoch(&self) -> u64 {
        self.global_epoch
    }

    pub closed spec fn readers(&self) -> u64 {
        self.active_readers
    }

    /// Records retired and not yet collected.
    pub closed spec fn pending(&self) -> Seq<RetiredRecord> {
        self.retired@
    }

    pub fn new() -> (r: EpochManager)
        ensures
            r.epoch() == 1,
            r.readers() == 0,
            r.pending() == Seq::<RetiredRecord>::empty(),
    {
        EpochManager { global_epoch: 1, active_readers: 0, retired: Vec::new() }
    }

    /// Pins a reader until the returned guard is handed back to `unpin`.
    pub fn pin(&mut self) -> (r: EpochGuard)
        ensures
            final(self).readers() == crate::telemetry::metrics::wrapping_add_u64(old(self).readers(), 1),
            final(self).epoch() == old(self).epoch(),
            final(self).pending() == old(self).pending(),
    {
        self.active_readers = self.active_readers.wrapping_add(1);
        EpochGuard { _pinned: () }
    }

    /// Unpins the reader that `guard` was issued for.
    pub fn unpin(&mut self, guard: EpochGuard)
        ensures
            final(self).readers() == (if old(self).readers() == 0 {
                u64::MAX
            } else {
                (old(self).readers() - 1) as u64
            }),
            final(self).epoch() == old(self).epoch(),
            final(self).pending() == old(self).pending(),
    {
        self.active_readers = self.active_readers.wrapping_sub(1);
    }

    /// Moves to the next epoch and returns it.
    pub fn advance_epoch(&mut self) -> (r: u64)
        requires
            old(self).epoch() < u64::MAX,
        ensures
            r == old(self).epoch() + 1,
            final(self).epoch() == r,
            final(self).readers() == old(self).readers(),
            final(self).pending() == old(self).pending(),
    {
        self.global_epoch = self.global_epoch + 1;
        self.global_epoch
    }

    /// Retires `handle_offset` in the current epoch.
    pub fn retire_offset(&mut self, handle_offset: u64)
        ensures
            final(self).pending() == old(self).pending().push(
                RetiredRecord { handle_offset, retire_epoch: old(self).epoch() },
            ),
            final(self).epoch() == old(self).epoch(),
            final(self).readers() == old(self).readers(),
    {
        let retire_epoch = self.global_epoch;
        self.retired.push(RetiredRecord { handle_offset, retire_epoch });
    }

    /// Collects the records retired before the current epoch, provided no
    /// reader is pinned.  Every pending record ends up either returned or
    /// still pending, never both and never lost.
    pub fn try_collect(&mut self) -> (r: Vec<RetiredRecord>)
        ensures
            final(self).epoch() == old(self).epoch(),
            final(self).readers() == old(self).readers(),
            old(self).readers() != 0 ==> r@ == Seq::<RetiredRecord>::empty() && final(self).pending()
                == old(self).pending(),
            old(self).readers() == 0 ==> {
                &&& (r@, final(self).pending()) == collect_order(
                    old(self).pending(),
                    0,
                    old(self).epoch(),
                    Seq::<RetiredRecord>::empty(),
                )
                &&& r@.to_multiset().add(final(self).pending().to_multiset())
                    == old(self).pending().to_multiset()
                &&& forall|k: int| 0 <= k < r@.len() ==> (#[trigger] r@[k]).retire_epoch < old(self).epoch()
                &&& forall|k: int|
                    0 <= k < final(self).pending().len() ==> (#[trigger] final(self).pending()[k]).retire_epoch
                        >= old(self).epoch()
            },
    {
        if self.active_readers != 0 {
            return Vec::new();
        }
        let current = self.global_epoch;
        let mut reclaimed: Vec<RetiredRecord> = Vec::new();
        let mut i: usize = 0;
        while i < self.retired.len()
            invariant
                current == self.global_epoch,
                self.global_epoch == old(self).global_epoch,
                self.active_readers == old(self).active_readers,
                i <= self.retired@.len(),
                reclaimed@.to_multiset().add(self.retired@.to_multiset()) == old(self).retired@.to_multiset(),
                forall|k: int| 0 <= k < reclaimed@.len() ==> (#[trigger] reclaimed@[k]).retire_epoch < current,
                forall|k: int| 0 <= k < i ==> (#[trigger] self.retired@[k]).retire_epoch >= current,
                collect_order(self.retired@, i as int, current, reclaimed@) == collect_order(
                    old(self).retired@,
                    0,
                    current,
                    Seq::<RetiredRecord>::empty(),
                ),
            decreases self.retired@.len() - i,
        {
            if self.retired[i].retire_epoch < current {
                let ghost before = self.retired@;
                let ghost before_reclaimed = reclaimed@;
                let record = self.retired.swap_remove(i);
                reclaimed.push(record);
                proof {
                    assert(self.retired@ =~= before.update(i as int, before.last()).drop_last());
                    lemma_swap_remove_multiset(before, i as int);
                    assert(reclaimed@.to_multiset() == before_reclaimed.to_multiset().insert(record));
                    assert(reclaimed@.to_multiset().add(self.retired@.to_multiset()) =~= before_reclaimed.to_multiset().add(before.to_multiset()));
                    assert forall|k: int| 0 <= k < i implies (#[trigger] self.retired@[k]).retire_epoch >= current by {
                        assert(self.retired@[k] == before[k]);
                    }
                }
            } else {
                i = i + 1;
            }
        }
        reclaimed
    }
}

impl Default for EpochManager {
    fn default() -> (r: EpochManager)
        ensures
            r.epoch() == 0,
            r.readers() == 0,
            r.pending() == Seq::<RetiredRecord>::empty(),
    {
        EpochManager { global_epoch: 0, active_readers: 0, retired: Vec::new() }
    }
}

} // verus!

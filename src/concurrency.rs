use crate::block::BlockId;
use crate::block_map::BlockMap;
use crate::lock_table::{lock_value, unlocked, LockAbortError, LockTable};
use vstd::prelude::*;

verus! {

/// The kind of lock a transaction holds on a block.
#[derive(Debug, Clone, Copy, PartialEq, Eq, Structural)]
pub enum LockKind {
    Shared,
    Exclusive,
}

/// The lock table after a transaction holding the locks in `held` releases
/// them all.
pub open spec fn released(
    m: Map<(Seq<char>, u64), i32>,
    held: Map<(Seq<char>, u64), LockKind>,
) -> Map<(Seq<char>, u64), i32> {
    Map::new(
        |k: (Seq<char>, u64)| m.contains_key(k) && !(held.contains_key(k) && lock_value(m, k) <= 1),
        |k: (Seq<char>, u64)|
            if held.contains_key(k) {
                (lock_value(m, k) - 1) as i32
            } else {
                m[k]
            },
    )
}

/// The lock table once a transaction holding `held` has a shared lock on `k`.
pub open spec fn table_after_slock(
    m: Map<(Seq<char>, u64), i32>,
    held: Map<(Seq<char>, u64), LockKind>,
    k: (Seq<char>, u64),
) -> Map<(Seq<char>, u64), i32> {
    if held.contains_key(k) {
        m
    } else {
        m.insert(k, (lock_value(m, k) + 1) as i32)
    }
}

/// The transaction's locks once it has a shared lock on `k`.
pub open spec fn held_after_slock(
    held: Map<(Seq<char>, u64), LockKind>,
    k: (Seq<char>, u64),
) -> Map<(Seq<char>, u64), LockKind> {
    if held.contains_key(k) {
        held
    } else {
        held.insert(k, LockKind::Shared)
    }
}

/// The locks of one transaction, and its requests to the shared lock table.
pub struct ConcurrencyManager {
    locks: BlockMap<LockKind>,
}

impl View for ConcurrencyManager {
    type V = Map<(Seq<char>, u64), LockKind>;

    closed spec fn view(&self) -> Map<(Seq<char>, u64), LockKind> {
        self.locks@
    }
}

impl Default for ConcurrencyManager {
    fn default() -> (r: ConcurrencyManager)
        ensures
            r.wf(),
            r@ == Map::<(Seq<char>, u64), LockKind>::empty(),
    {
        ConcurrencyManager::new()
    }
}

impl ConcurrencyManager {
    pub closed spec fn wf(&self) -> bool {
        self.locks.wf()
    }

    pub fn new() -> (r: ConcurrencyManager)
        ensures
            r.wf(),
            r@ == Map::<(Seq<char>, u64), LockKind>::empty(),
    {
        ConcurrencyManager { locks: BlockMap::new() }
    }

    /// Obtains a shared lock on `blk` unless the transaction already holds a lock on it.
    pub fn slock(&mut self, table: &mut LockTable, blk: BlockId) -> (r: Result<(), LockAbortError>)
        requires
            old(self).wf(),
            old(table).wf(),
            lock_value(old(table)@, blk@) < i32::MAX,
        ensures
            final(self).wf(),
            final(table).wf(),
            final(table).max_wait() == old(table).max_wait(),
            r is Err <==> !old(self)@.contains_key(blk@) && lock_value(old(table)@, blk@) < 0,
            r is Err ==> final(self)@ == old(self)@ && final(table)@ == old(table)@,
            r is Ok ==> final(self)@ == held_after_slock(old(self)@, blk@) && final(table)@
                == table_after_slock(old(table)@, old(self)@, blk@),
    {
        if self.locks.get(&blk).is_none() {
            let key = blk.clone();
            table.slock(blk)?;
            self.locks.insert(key, LockKind::Shared);
        }
        Ok(())
    }

    /// Obtains an exclusive lock on `blk`: a shared lock first if the
    /// transaction has none, then the upgrade.
    pub fn xlock(&mut self, table: &mut LockTable, blk: BlockId) -> (r: Result<(), LockAbortError>)
        requires
            old(self).wf(),
            old(table).wf(),
            lock_value(old(table)@, blk@) < i32::MAX,
        ensures
            final(self).wf(),
            final(table).wf(),
            final(table).max_wait() == old(table).max_wait(),
            ({
                let k = blk@;
                let t1 = table_after_slock(old(table)@, old(self)@, k);
                let h1 = held_after_slock(old(self)@, k);
                if old(self)@.get(k) == Some(LockKind::Exclusive) {
                    r is Ok && final(self)@ == old(self)@ && final(table)@ == old(table)@
                } else if !old(self)@.contains_key(k) && lock_value(old(table)@, k) < 0 {
                    r is Err && final(self)@ == old(self)@ && final(table)@ == old(table)@
                } else if lock_value(t1, k) > 1 {
                    r is Err && final(self)@ == h1 && final(table)@ == t1
                } else {
                    r is Ok && final(self)@ == old(self)@.insert(k, LockKind::Exclusive) && final(table)@
                        == t1.insert(k, -1i32)
                }
            }),
    {
        if !self.has_xlock(&blk) {
            let key = blk.clone();
            self.slock(table, blk)?;
            table.x_lock(&key)?;
            self.locks.insert(key, LockKind::Exclusive);
        }
        Ok(())
    }

    /// Releases every lock of the transaction.
    pub fn release(&mut self, table: &mut LockTable)
        requires
            old(self).wf(),
            old(table).wf(),
        ensures
            final(self).wf(),
            final(table).wf(),
            final(table).max_wait() == old(table).max_wait(),
            final(self)@ == Map::<(Seq<char>, u64), LockKind>::empty(),
            final(table)@ == released(old(table)@, old(self)@),
    {
        let ghost t0 = table@;
        let ghost held = self@;
        proof {
            self.locks.lemma_keys();
        }
        let n = self.locks.len();
        let mut i: usize = 0;
        while i < n
            invariant
                self.wf(),
                self@ == held,
                table.wf(),
                table.max_wait() == old(table).max_wait(),
                n == self.locks.keys().len(),
                i <= n,
                self.locks.keys().no_duplicates(),
                forall|k| held.contains_key(k) <==> self.locks.keys().contains(k),
                forall|k|
                    #![trigger table@.get(k)]
                    (exists|j: int| 0 <= j < i && self.locks.keys()[j] == k) ==> table@.get(k)
                        == unlocked(t0, k).get(k),
                forall|k|
                    #![trigger table@.get(k)]
                    !(exists|j: int| 0 <= j < i && self.locks.keys()[j] == k) ==> table@.get(k)
                        == t0.get(k),
            decreases n - i,
        {
            let blk = self.locks.key_at(i).clone();
            let ghost ki = blk@;
            let ghost before = table@;
            assert(!(exists|j: int| 0 <= j < i && self.locks.keys()[j] == ki));
            table.unlock(blk);
            assert forall|k| #![trigger table@.get(k)]
                (exists|j: int| 0 <= j < i + 1 && self.locks.keys()[j] == k) implies table@.get(k)
                    == unlocked(t0, k).get(k) by {
                if k != ki {
                    let j = choose|j: int| 0 <= j < i + 1 && self.locks.keys()[j] == k;
                    assert(j < i);
                    assert(before.get(k) == unlocked(t0, k).get(k));
                }
            }
            assert forall|k| #![trigger table@.get(k)]
                !(exists|j: int| 0 <= j < i + 1 && self.locks.keys()[j] == k) implies table@.get(k)
                    == t0.get(k) by {
                assert(k != self.locks.keys()[i as int]);
                assert(before.get(k) == t0.get(k));
            }
            i += 1;
        }
        assert forall|k| #![auto] table@.get(k) == released(t0, held).get(k) by {
            if held.contains_key(k) {
                assert(self.locks.keys().contains(k));
                let j = choose|j: int| 0 <= j < self.locks.keys().len() && self.locks.keys()[j] == k;
                assert(table@.get(k) == unlocked(t0, k).get(k));
            } else {
                assert(!self.locks.keys().contains(k));
                assert(table@.get(k) == t0.get(k));
            }
        }
        let ghost want = released(t0, held);
        assert forall|k| #[trigger] table@.dom().contains(k) <==> want.dom().contains(k) by {
            assert(table@.get(k) == want.get(k));
        }
        assert(table@.dom() =~= want.dom());
        assert forall|k| #[trigger] table@.dom().contains(k) implies table@[k] == want[k] by {
            assert(table@.get(k) == want.get(k));
        }
        assert(table@ =~= want);
        self.locks.clear();
    }

    fn has_xlock(&self, blk: &BlockId) -> (r: bool)
        requires
            self.wf(),
        ensures
            r == (self@.get(blk@) == Some(LockKind::Exclusive)),
    {
        match self.locks.get(blk) {
            Some(LockKind::Exclusive) => true,
            _ => false,
        }
    }
}

} // verus!

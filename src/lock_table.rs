use crate::block::BlockId;
use crate::block_map::BlockMap;
use vstd::prelude::*;

verus! {

/// A lock request that could not be granted in time.
#[derive(Debug, Clone, Copy, PartialEq, Eq, Structural)]
pub struct LockAbortError;

impl LockAbortError {
    /// The error's message.
    pub fn to_string(&self) -> (r: String)
        ensures
            r@ == "Lock acquisition aborted due to timeout"@,
    {
        "Lock acquisition aborted due to timeout".to_owned()
    }
}

/// How long a lock request may wait, in milliseconds, unless set otherwise.
pub const DEFAULT_MAX_WAIT_MS: u64 = 10_000;

/// The lock state of a block: `n > 0` shared holders, or `-1` for one
/// exclusive holder; a block that is not locked has no entry.
pub open spec fn legal_lock_value(v: i32) -> bool {
    v == -1 || v > 0
}

/// The lock value of `k` in `m`, `0` when it is not locked.
pub open spec fn lock_value(m: Map<(Seq<char>, u64), i32>, k: (Seq<char>, u64)) -> i32 {
    if m.contains_key(k) {
        m[k]
    } else {
        0
    }
}

/// The lock table after one release of the lock on `k`.
pub open spec fn unlocked(m: Map<(Seq<char>, u64), i32>, k: (Seq<char>, u64)) -> Map<(Seq<char>, u64), i32> {
    if lock_value(m, k) > 1 {
        m.insert(k, (lock_value(m, k) - 1) as i32)
    } else {
        m.remove(k)
    }
}

/// The shared table of block locks. Each operation decides at once; a
/// request that conflicts fails without changing the table, and the caller
/// may wait for an unlock and ask again until `waiting_too_long` holds.
pub struct LockTable {
    locks: BlockMap<i32>,
    max_time: u64,
}

impl View for LockTable {
    type V = Map<(Seq<char>, u64), i32>;

    closed spec fn view(&self) -> Map<(Seq<char>, u64), i32> {
        self.locks@
    }
}

impl Default for LockTable {
    fn default() -> (r: LockTable)
        ensures
            r.wf(),
            r@ == Map::<(Seq<char>, u64), i32>::empty(),
            r.max_wait() == DEFAULT_MAX_WAIT_MS,
    {
        LockTable::new()
    }
}

impl LockTable {
    pub closed spec fn wf(&self) -> bool {
        &&& self.locks.wf()
        &&& forall|k| #[trigger] self.locks@.contains_key(k) ==> legal_lock_value(self.locks@[k])
    }

    /// The longest wait for a lock, in milliseconds.
    pub closed spec fn max_wait(&self) -> u64 {
        self.max_time
    }

    /// Every lock value in a well-formed table is legal.
    pub proof fn lemma_legal_values(&self, k: (Seq<char>, u64))
        requires
            self.wf(),
        ensures
            self@.contains_key(k) ==> legal_lock_value(self@[k]),
            lock_value(self@, k) >= -1,
    {
    }

    pub fn new() -> (r: LockTable)
        ensures
            r.wf(),
            r@ == Map::<(Seq<char>, u64), i32>::empty(),
            r.max_wait() == DEFAULT_MAX_WAIT_MS,
    {
        LockTable::new_with_timeout(DEFAULT_MAX_WAIT_MS)
    }

    pub fn new_with_timeout(max_time: u64) -> (r: LockTable)
        ensures
            r.wf(),
            r@ == Map::<(Seq<char>, u64), i32>::empty(),
            r.max_wait() == max_time,
    {
        LockTable { locks: BlockMap::new(), max_time }
    }

    pub fn max_time(&self) -> (r: u64)
        ensures
            r == self.max_wait(),
    {
        self.max_time
    }

    /// Grants a shared lock on `blk` unless it is locked exclusively.
    pub fn slock(&mut self, blk: BlockId) -> (r: Result<(), LockAbortError>)
        requires
            old(self).wf(),
            lock_value(old(self)@, blk@) < i32::MAX,
        ensures
            final(self).wf(),
            final(self).max_wait() == old(self).max_wait(),
            r is Err <==> lock_value(old(self)@, blk@) < 0,
            r is Err ==> final(self)@ == old(self)@,
            r is Ok ==> final(self)@ == old(self)@.insert(blk@, (lock_value(old(self)@, blk@) + 1) as i32),
    {
        if self.has_xlock(&blk) {
            return Err(LockAbortError);
        }
        let val = self.get_lock_value(&blk);
        self.locks.insert(blk, val + 1);
        Ok(())
    }

    /// Turns the caller's shared lock on `blk` into an exclusive one, unless
    /// other transactions hold shared locks on it too.
    pub fn x_lock(&mut self, blk: &BlockId) -> (r: Result<(), LockAbortError>)
        requires
            old(self).wf(),
        ensures
            final(self).wf(),
            final(self).max_wait() == old(self).max_wait(),
            r is Err <==> lock_value(old(self)@, blk@) > 1,
            r is Err ==> final(self)@ == old(self)@,
            r is Ok ==> final(self)@ == old(self)@.insert(blk@, -1i32),
    {
        if self.has_other_s_locks(blk) {
            return Err(LockAbortError);
        }
        self.locks.insert(blk.clone(), -1);
        Ok(())
    }

    /// Releases one lock on `blk`. Returns whether the block became
    /// unlocked, in which case waiters should be woken.
    pub fn unlock(&mut self, blk: BlockId) -> (r: bool)
        requires
            old(self).wf(),
        ensures
            final(self).wf(),
            final(self).max_wait() == old(self).max_wait(),
            final(self)@ == unlocked(old(self)@, blk@),
            r == (lock_value(old(self)@, blk@) <= 1),
    {
        let val = self.get_lock_value(&blk);
        if val > 1 {
            self.locks.insert(blk, val - 1);
            false
        } else {
            self.locks.remove(&blk);
            true
        }
    }

    pub fn has_xlock(&self, blk: &BlockId) -> (r: bool)
        requires
            self.wf(),
        ensures
            r == (lock_value(self@, blk@) < 0),
    {
        self.get_lock_value(blk) < 0
    }

    pub fn has_other_s_locks(&self, blk: &BlockId) -> (r: bool)
        requires
            self.wf(),
        ensures
            r == (lock_value(self@, blk@) > 1),
    {
        self.get_lock_value(blk) > 1
    }

    /// Whether a request that has waited `elapsed_ms` milliseconds must give up.
    pub fn waiting_too_long(&self, elapsed_ms: u64) -> (r: bool)
        ensures
            r == (elapsed_ms > self.max_wait()),
    {
        elapsed_ms > self.max_time
    }

    pub fn get_lock_value(&self, blk: &BlockId) -> (r: i32)
        requires
            self.wf(),
        ensures
            r == lock_value(self@, blk@),
    {
        match self.locks.get(blk) {
            Some(v) => v,
            None => 0,
        }
    }
}

} // verus!

use crate::block::BlockId;
use crate::page::Page;
use vstd::prelude::*;

verus! {

/// A failed pin.
#[derive(Debug)]
pub struct BufferError(pub String);

/// The state of one buffer slot.
pub struct SlotView {
    pub block: Option<(Seq<char>, u64)>,
    pub pins: u32,
    pub txn: i32,
    pub lsn: i32,
    pub page: Seq<u8>,
}

/// One slot of the buffer pool: a page, the block it holds, its pin count,
/// and the transaction and log record of its latest change (`-1` for none).
pub struct BufferPage {
    contents: Page,
    block: Option<BlockId>,
    pins: u32,
    txnum: i32,
    lsn: i32,
}

impl View for BufferPage {
    type V = SlotView;

    closed spec fn view(&self) -> SlotView {
        SlotView {
            block: match self.block {
                Some(b) => Some(b@),
                None => None,
            },
            pins: self.pins,
            txn: self.txnum,
            lsn: self.lsn,
            page: self.contents@,
        }
    }
}

impl BufferPage {
    /// The state of a new slot for pages of `block_size` bytes.
    pub open spec fn new_view(block_size: usize) -> SlotView {
        SlotView {
            block: None,
            pins: 0,
            txn: -1i32,
            lsn: -1i32,
            page: Seq::new(block_size as nat, |i: int| 0u8),
        }
    }

    /// An unassigned, unpinned, clean slot with a zeroed page of `block_size` bytes.
    pub fn new(block_size: usize) -> (r: BufferPage)
        ensures
            r@.block is None,
            r@.pins == 0,
            r@.txn == -1,
            r@.lsn == -1,
            r@.page == Seq::new(block_size as nat, |i: int| 0u8),
    {
        BufferPage { contents: Page::new(block_size), block: None, pins: 0, txnum: -1, lsn: -1 }
    }

    pub fn page(&self) -> (r: &Page)
        ensures
            r@ == self@.page,
    {
        &self.contents
    }

    /// The page, for the holder of a pin to read and change.
    pub fn contents(&mut self) -> (r: &mut Page)
        ensures
            (*r)@ == old(self)@.page,
            final(self)@ == (SlotView { page: (*final(r))@, ..old(self)@ }),
    {
        &mut self.contents
    }

    pub fn block(&self) -> (r: Option<&BlockId>)
        ensures
            r is None <==> self@.block is None,
            r is Some ==> self@.block == Some(r->Some_0@),
    {
        self.block.as_ref()
    }

    /// Records a change by transaction `txnum`, described by log record
    /// `lsn`; a negative `lsn` keeps the earlier one.
    pub fn set_modified(&mut self, txnum: i32, lsn: i32)
        ensures
            final(self)@ == (SlotView {
                txn: txnum,
                lsn: if lsn >= 0 { lsn } else { old(self)@.lsn },
                ..old(self)@
            }),
    {
        self.txnum = txnum;
        if lsn >= 0 {
            self.lsn = lsn;
        }
    }

    pub fn is_pinned(&self) -> (r: bool)
        ensures
            r == (self@.pins > 0),
    {
        self.pins > 0
    }

    pub fn pin_count(&self) -> (r: u32)
        ensures
            r == self@.pins,
    {
        self.pins
    }

    pub fn modifying_txn(&self) -> (r: i32)
        ensures
            r == self@.txn,
    {
        self.txnum
    }

    pub fn lsn(&self) -> (r: i32)
        ensures
            r == self@.lsn,
    {
        self.lsn
    }

    /// Whether the page was changed since it was last written.
    pub fn is_dirty(&self) -> (r: bool)
        ensures
            r == (self@.txn >= 0),
    {
        self.txnum >= 0
    }

    /// Gives the slot block `b` with `page`, read from disk, and no pins.
    /// Only a clean slot may be reassigned: a dirty one is flushed first.
    pub fn assign_to_block(&mut self, b: BlockId, page: Page)
        requires
            old(self)@.txn < 0,
        ensures
            final(self)@ == (SlotView { block: Some(b@), pins: 0, page: page@, ..old(self)@ }),
    {
        self.block = Some(b);
        self.contents = page;
        self.pins = 0;
    }

    /// Records that the page was written to its block after the log was
    /// forced up to its record.
    pub fn flushed(&mut self)
        ensures
            final(self)@ == (SlotView { txn: -1i32, ..old(self)@ }),
    {
        self.txnum = -1;
    }

    pub fn pin(&mut self)
        requires
            old(self)@.pins < u32::MAX,
        ensures
            final(self)@ == (SlotView { pins: (old(self)@.pins + 1) as u32, ..old(self)@ }),
    {
        self.pins = self.pins + 1;
    }

    /// Releases one pin; a slot with no pins stays at none.
    pub fn unpin(&mut self)
        ensures
            final(self)@ == (SlotView {
                pins: if old(self)@.pins > 0 { (old(self)@.pins - 1) as u32 } else { 0 },
                ..old(self)@
            }),
    {
        if self.pins > 0 {
            self.pins = self.pins - 1;
        }
    }

    /// Replaces the page, keeping the rest of the slot.
    pub fn set_contents(&mut self, page: Page)
        ensures
            final(self)@ == (SlotView { page: page@, ..old(self)@ }),
    {
        self.contents = page;
    }
}

/// How long a pin may wait for a free slot, in milliseconds, unless set otherwise.
pub const DEFAULT_MAX_WAIT_MS: u64 = 10_000;

/// What the caller of a pin does next.
#[derive(Debug, Clone, Copy, PartialEq, Eq, Structural)]
pub enum PinStep {
    /// The block is pinned in this slot.
    Pinned(usize),
    /// This slot is free for the block: flush it if dirty, read the block
    /// into a page, then hand both to `assign_to_block`.
    Assign(usize),
    /// No slot is free yet: wait for an unpin and ask again.
    Wait,
}

/// One disk action of a flush; the actions are done in the order given.
#[derive(Debug, Clone, Copy, PartialEq, Eq, Structural)]
pub enum FlushStep {
    /// Force the log up to this record.
    ForceLog(i32),
    /// Write this slot's page to its block, then mark the slot clean.
    WritePage(usize),
}

/// The number of slots without pins.
pub open spec fn count_unpinned(s: Seq<SlotView>) -> nat
    decreases s.len(),
{
    if s.len() == 0 {
        0
    } else {
        count_unpinned(s.drop_last()) + if s.last().pins == 0 {
            1nat
        } else {
            0nat
        }
    }
}

/// No block is held by two slots.
pub open spec fn distinct_blocks(s: Seq<SlotView>) -> bool {
    forall|i: int, j: int|
        0 <= i < s.len() && 0 <= j < s.len() && i != j && (#[trigger] s[i]).block is Some
            ==> s[i].block != (#[trigger] s[j]).block
}

/// Whether some slot holds the block `k`.
pub open spec fn held(s: Seq<SlotView>, k: (Seq<char>, u64)) -> bool {
    exists|i: int| 0 <= i < s.len() && (#[trigger] s[i]).block == Some(k)
}

/// `i` is the first slot without pins.
pub open spec fn first_unpinned(s: Seq<SlotView>, i: int) -> bool {
    &&& 0 <= i < s.len()
    &&& s[i].pins == 0
    &&& forall|j: int| 0 <= j < i ==> (#[trigger] s[j]).pins > 0
}

/// The pool after one more pin of slot `i`.
pub open spec fn pinned_once_more(s: Seq<SlotView>, i: int) -> Seq<SlotView> {
    s.update(i, SlotView { pins: (s[i].pins + 1) as u32, ..s[i] })
}

/// The pool `after` and the step `r` are what one attempt to pin `k` in
/// the pool `before` gives: the slot that holds `k` gets one more pin;
/// else the first slot without pins is offered; else the caller waits.
pub open spec fn pin_attempt(before: Seq<SlotView>, after: Seq<SlotView>, k: (Seq<char>, u64), r: PinStep) -> bool {
    match r {
        PinStep::Pinned(i) => {
            &&& i < before.len()
            &&& before[i as int].block == Some(k)
            &&& before[i as int].pins < u32::MAX
            &&& after == pinned_once_more(before, i as int)
        },
        PinStep::Assign(i) => {
            &&& !held(before, k)
            &&& first_unpinned(before, i as int)
            &&& after == before
        },
        PinStep::Wait => {
            &&& after == before
            &&& (!held(before, k) && forall|j: int| 0 <= j < before.len() ==> (#[trigger] before[j]).pins > 0)
                || (exists|j: int|
                0 <= j < before.len() && (#[trigger] before[j]).block == Some(k) && before[j].pins == u32::MAX)
        },
    }
}

proof fn lemma_count_update(s: Seq<SlotView>, i: int, x: SlotView)
    requires
        0 <= i < s.len(),
    ensures
        count_unpinned(s.update(i, x)) + (if s[i].pins == 0 { 1int } else { 0int }) == count_unpinned(s) + (
        if x.pins == 0 {
            1int
        } else {
            0int
        }),
    decreases s.len(),
{
    let t = s.update(i, x);
    if i == s.len() - 1 {
        assert(t.drop_last() =~= s.drop_last());
    } else {
        assert(t.drop_last() =~= s.drop_last().update(i, x));
        lemma_count_update(s.drop_last(), i, x);
    }
}

proof fn lemma_count_le(s: Seq<SlotView>)
    ensures
        count_unpinned(s) <= s.len(),
    decreases s.len(),
{
    if s.len() > 0 {
        lemma_count_le(s.drop_last());
    }
}

/// A fixed pool of buffer slots that maps blocks to slots on demand. Disk
/// work is the caller's: `pin` and `flush_all` say what to read, write and
/// force, and the caller reports back.
pub struct BufferManager {
    buffer_pool: Vec<BufferPage>,
    num_available: usize,
    max_time: u64,
    block_size: usize,
}

impl View for BufferManager {
    type V = Seq<SlotView>;

    closed spec fn view(&self) -> Seq<SlotView> {
        self.buffer_pool@.map_values(|b: BufferPage| b@)
    }
}

impl BufferManager {
    pub closed spec fn wf(&self) -> bool {
        &&& self.num_available == count_unpinned(self@)
        &&& distinct_blocks(self@)
    }

    /// The longest wait for a free slot, in milliseconds.
    pub closed spec fn max_wait(&self) -> u64 {
        self.max_time
    }

    /// The size of the pages that the slots hold.
    pub closed spec fn page_size(&self) -> usize {
        self.block_size
    }

    /// Every slot without pins counts as available, and no block is held
    /// by two slots.
    pub proof fn lemma_pool_invariants(&self)
        requires
            self.wf(),
        ensures
            distinct_blocks(self@),
            count_unpinned(self@) <= self@.len(),
    {
        lemma_count_le(self@);
    }

    pub fn new(block_size: usize, num_buffs: usize) -> (r: BufferManager)
        ensures
            r.wf(),
            r@.len() == num_buffs,
            r.max_wait() == DEFAULT_MAX_WAIT_MS,
            r.page_size() == block_size,
            forall|i: int| 0 <= i < num_buffs ==> #[trigger] r@[i] == BufferPage::new_view(block_size),
    {
        BufferManager::new_with_timeout(block_size, num_buffs, DEFAULT_MAX_WAIT_MS)
    }

    pub fn new_with_timeout(block_size: usize, num_buffs: usize, max_time: u64) -> (r: BufferManager)
        ensures
            r.wf(),
            r@.len() == num_buffs,
            r.max_wait() == max_time,
            r.page_size() == block_size,
            forall|i: int| 0 <= i < num_buffs ==> #[trigger] r@[i] == BufferPage::new_view(block_size),
    {
        let mut buffer_pool: Vec<BufferPage> = Vec::new();
        let mut i: usize = 0;
        while i < num_buffs
            invariant
                i <= num_buffs,
                buffer_pool@.len() == i,
                count_unpinned(buffer_pool@.map_values(|b: BufferPage| b@)) == i,
                forall|j: int| 0 <= j < i ==> #[trigger] buffer_pool@[j]@ == BufferPage::new_view(block_size),
            decreases num_buffs - i,
        {
            let ghost before = buffer_pool@.map_values(|b: BufferPage| b@);
            let b = BufferPage::new(block_size);
            assert(b@.page =~= BufferPage::new_view(block_size).page);
            buffer_pool.push(b);
            assert(buffer_pool@.map_values(|b: BufferPage| b@).drop_last() =~= before);
            i += 1;
        }
        let r = BufferManager { buffer_pool, num_available: num_buffs, max_time, block_size };
        assert forall|i: int| 0 <= i < num_buffs implies #[trigger] r@[i] == BufferPage::new_view(block_size) by {}
        r
    }

    /// The number of slots without pins.
    pub fn available(&self) -> (r: usize)
        requires
            self.wf(),
        ensures
            r == count_unpinned(self@),
    {
        self.num_available
    }

    pub fn len(&self) -> (r: usize)
        ensures
            r == self@.len(),
    {
        self.buffer_pool.len()
    }

    pub fn max_time(&self) -> (r: u64)
        ensures
            r == self.max_wait(),
    {
        self.max_time
    }

    pub fn block_size(&self) -> (r: usize)
        ensures
            r == self.page_size(),
    {
        self.block_size
    }

    /// The slot at `i`.
    pub fn slot(&self, i: usize) -> (r: &BufferPage)
        requires
            i < self@.len(),
        ensures
            r@ == self@[i as int],
    {
        &self.buffer_pool[i]
    }

    /// The page of slot `i`, for the holder of a pin to read and change.
    pub fn page_mut(&mut self, i: usize) -> (r: &mut Page)
        requires
            i < old(self)@.len(),
        ensures
            (*r)@ == old(self)@[i as int].page,
            final(self)@ == old(self)@.update(i as int, SlotView { page: (*final(r))@, ..old(self)@[i as int] }),
            final(self).max_wait() == old(self).max_wait(),
            final(self).page_size() == old(self).page_size(),
            old(self).wf() ==> final(self).wf(),
    {
        let ghost s = self@;
        proof {
            assert forall|x: SlotView| x.pins == s[i as int].pins implies #[trigger] count_unpinned(
                s.update(i as int, x),
            ) == count_unpinned(s) by {
                lemma_count_update(s, i as int, x);
            }
            assert forall|x: SlotView|
                x.block == s[i as int].block && distinct_blocks(s) implies #[trigger] distinct_blocks(
                s.update(i as int, x),
            ) by {
                let t = s.update(i as int, x);
                if distinct_blocks(s) {
                    assert forall|a: int, b: int|
                        0 <= a < t.len() && 0 <= b < t.len() && a != b && (#[trigger] t[a]).block is Some
                            implies t[a].block != (#[trigger] t[b]).block by {
                        assert(t[a].block == s[a].block);
                        assert(t[b].block == s[b].block);
                    }
                }
            }
        }
        self.buffer_pool[i].contents()
    }

    /// Records a change to slot `i` by transaction `txnum`, described by log
    /// record `lsn`; a negative `lsn` keeps the earlier one.
    pub fn set_modified(&mut self, i: usize, txnum: i32, lsn: i32)
        requires
            old(self).wf(),
            i < old(self)@.len(),
        ensures
            final(self).wf(),
            final(self).max_wait() == old(self).max_wait(),
            final(self).page_size() == old(self).page_size(),
            final(self)@ == old(self)@.update(
                i as int,
                SlotView { txn: txnum, lsn: if lsn >= 0 { lsn } else { old(self)@[i as int].lsn }, ..old(self)@[i as int] },
            ),
    {
        let ghost s = self@;
        self.buffer_pool[i].set_modified(txnum, lsn);
        proof {
            lemma_count_update(s, i as int, self@[i as int]);
            assert(self@ =~= s.update(i as int, self@[i as int]));
        }
    }

    /// The disk actions that flush every slot changed by transaction
    /// `txnum`: for each such slot, first force the log up to the slot's
    /// record, then write its page.
    pub fn flush_all(&self, txnum: i32) -> (r: Vec<FlushStep>)
        ensures
            forall|k: int|
                0 <= k < r@.len() ==> match #[trigger] r@[k] {
                    FlushStep::WritePage(i) => {
                        &&& i < self@.len()
                        &&& self@[i as int].txn == txnum
                        &&& txnum >= 0
                        &&& k >= 1
                        &&& r@[k - 1] == FlushStep::ForceLog(self@[i as int].lsn)
                    },
                    FlushStep::ForceLog(_) => k + 1 < r@.len() && r@[k + 1] is WritePage,
                },
            forall|i: int|
                0 <= i < self@.len() && txnum >= 0 && (#[trigger] self@[i]).txn == txnum ==> exists|k: int|
                    0 <= k < r@.len() && r@[k] == FlushStep::WritePage(i as usize),
            forall|k1: int, k2: int|
                0 <= k1 < r@.len() && 0 <= k2 < r@.len() && k1 != k2 && (#[trigger] r@[k1]) is WritePage
                    ==> r@[k1] != #[trigger] r@[k2],
    {
        let mut r: Vec<FlushStep> = Vec::new();
        if txnum < 0 {
            return r;
        }
        let n = self.buffer_pool.len();
        let mut i: usize = 0;
        while i < n
            invariant
                n == self@.len(),
                i <= n,
                txnum >= 0,
                forall|k: int|
                    0 <= k < r@.len() ==> match #[trigger] r@[k] {
                        FlushStep::WritePage(j) => {
                            &&& j < i
                            &&& self@[j as int].txn == txnum
                            &&& k >= 1
                            &&& r@[k - 1] == FlushStep::ForceLog(self@[j as int].lsn)
                        },
                        FlushStep::ForceLog(_) => k + 1 < r@.len() && r@[k + 1] is WritePage,
                    },
                forall|j: int|
                    0 <= j < i && (#[trigger] self@[j]).txn == txnum ==> exists|k: int|
                        0 <= k < r@.len() && r@[k] == FlushStep::WritePage(j as usize),
                forall|k1: int, k2: int|
                    0 <= k1 < r@.len() && 0 <= k2 < r@.len() && k1 != k2 && (#[trigger] r@[k1]) is WritePage
                        ==> r@[k1] != #[trigger] r@[k2],
            decreases n - i,
        {
            let slot = &self.buffer_pool[i];
            assert(slot@ == self@[i as int]);
            if slot.modifying_txn() == txnum {
                let ghost before = r@;
                r.push(FlushStep::ForceLog(slot.lsn()));
                r.push(FlushStep::WritePage(i));
                assert(r@.len() == before.len() + 2);
                assert(r@[before.len() as int] == FlushStep::ForceLog(self@[i as int].lsn));
                assert forall|k: int| 0 <= k < before.len() implies r@[k] == before[k] by {}
                assert forall|j: int|
                    0 <= j < i + 1 && (#[trigger] self@[j]).txn == txnum implies exists|k: int|
                        0 <= k < r@.len() && r@[k] == FlushStep::WritePage(j as usize) by {
                    if j < i {
                        let k = choose|k: int| 0 <= k < before.len() && before[k] == FlushStep::WritePage(j as usize);
                        assert(r@[k] == FlushStep::WritePage(j as usize));
                    } else {
                        assert(r@[before.len() as int + 1] == FlushStep::WritePage(j as usize));
                    }
                }
            }
            i += 1;
        }
        r
    }

    /// Records that slot `i` was flushed: the log was forced up to its
    /// record and its page written.
    pub fn flushed(&mut self, i: usize)
        requires
            old(self).wf(),
            i < old(self)@.len(),
        ensures
            final(self).wf(),
            final(self).max_wait() == old(self).max_wait(),
            final(self).page_size() == old(self).page_size(),
            final(self)@ == old(self)@.update(i as int, SlotView { txn: -1i32, ..old(self)@[i as int] }),
    {
        let ghost s = self@;
        self.buffer_pool[i].flushed();
        proof {
            lemma_count_update(s, i as int, self@[i as int]);
            assert(self@ =~= s.update(i as int, self@[i as int]));
        }
    }

    /// Releases one pin of slot `i`; the slot becomes available when none is left.
    pub fn unpin(&mut self, i: usize)
        requires
            old(self).wf(),
            i < old(self)@.len(),
        ensures
            final(self).wf(),
            final(self).max_wait() == old(self).max_wait(),
            final(self).page_size() == old(self).page_size(),
            final(self)@ == old(self)@.update(
                i as int,
                SlotView {
                    pins: if old(self)@[i as int].pins > 0 { (old(self)@[i as int].pins - 1) as u32 } else { 0 },
                    ..old(self)@[i as int]
                },
            ),
    {
        let ghost s = self@;
        // The pool size bounds the number of available slots.
        let _n = self.buffer_pool.len();
        let was_pinned = self.buffer_pool[i].is_pinned();
        self.buffer_pool[i].unpin();
        proof {
            lemma_count_update(s, i as int, self@[i as int]);
            assert(self@ =~= s.update(i as int, self@[i as int]));
            lemma_count_le(self@);
        }
        if was_pinned && !self.buffer_pool[i].is_pinned() {
            self.num_available = self.num_available + 1;
        }
    }

    fn find_existing_buffer(&self, blk: &BlockId) -> (r: Option<usize>)
        ensures
            r is Some ==> r->Some_0 < self@.len() && self@[r->Some_0 as int].block == Some(blk@),
            r is None ==> !held(self@, blk@),
    {
        let n = self.buffer_pool.len();
        let mut i: usize = 0;
        while i < n
            invariant
                n == self@.len(),
                i <= n,
                forall|j: int| 0 <= j < i ==> (#[trigger] self@[j]).block != Some(blk@),
            decreases n - i,
        {
            let slot = &self.buffer_pool[i];
            assert(slot@ == self@[i as int]);
            match slot.block() {
                Some(b) => {
                    if *b == *blk {
                        return Some(i);
                    }
                },
                None => {},
            }
            i += 1;
        }
        None
    }

    fn choose_unpinned_buffer(&self) -> (r: Option<usize>)
        ensures
            r is Some ==> first_unpinned(self@, r->Some_0 as int),
            r is None ==> forall|j: int| 0 <= j < self@.len() ==> (#[trigger] self@[j]).pins > 0,
    {
        let n = self.buffer_pool.len();
        let mut i: usize = 0;
        while i < n
            invariant
                n == self@.len(),
                i <= n,
                forall|j: int| 0 <= j < i ==> (#[trigger] self@[j]).pins > 0,
            decreases n - i,
        {
            let slot = &self.buffer_pool[i];
            assert(slot@ == self@[i as int]);
            if !slot.is_pinned() {
                return Some(i);
            }
            i += 1;
        }
        None
    }

    /// One attempt to pin `blk`, with no waiting.
    pub fn try_to_pin(&mut self, blk: &BlockId) -> (r: PinStep)
        requires
            old(self).wf(),
        ensures
            final(self).wf(),
            final(self).max_wait() == old(self).max_wait(),
            final(self).page_size() == old(self).page_size(),
            pin_attempt(old(self)@, final(self)@, blk@, r),
    {
        match self.find_existing_buffer(blk) {
            Some(i) => {
                let ghost s = self@;
                if self.buffer_pool[i].pin_count() == u32::MAX {
                    return PinStep::Wait;
                }
                let was_pinned = self.buffer_pool[i].is_pinned();
                self.buffer_pool[i].pin();
                proof {
                    lemma_count_update(s, i as int, self@[i as int]);
                    assert(self@ =~= pinned_once_more(s, i as int));
                    assert forall|a: int, b: int|
                        0 <= a < self@.len() && 0 <= b < self@.len() && a != b && (#[trigger] self@[a]).block is Some
                            implies self@[a].block != (#[trigger] self@[b]).block by {
                        assert(self@[a].block == s[a].block);
                        assert(self@[b].block == s[b].block);
                    }
                }
                if !was_pinned {
                    self.num_available = self.num_available - 1;
                }
                PinStep::Pinned(i)
            },
            None => match self.choose_unpinned_buffer() {
                Some(i) => PinStep::Assign(i),
                None => PinStep::Wait,
            },
        }
    }

    /// One step of pinning `blk` by a caller that has waited `elapsed_ms`
    /// milliseconds so far: past the longest wait it fails with a timeout,
    /// else it makes one attempt.
    pub fn pin(&mut self, blk: &BlockId, elapsed_ms: u64) -> (r: Result<PinStep, BufferError>)
        requires
            old(self).wf(),
        ensures
            final(self).wf(),
            final(self).max_wait() == old(self).max_wait(),
            final(self).page_size() == old(self).page_size(),
            r is Err <==> elapsed_ms >= old(self).max_wait(),
            r is Err ==> final(self)@ == old(self)@ && r->Err_0.0@ == "Could not pin buffer: timeout"@,
            r is Ok ==> pin_attempt(old(self)@, final(self)@, blk@, r->Ok_0),
    {
        if elapsed_ms >= self.max_time {
            return Err(BufferError("Could not pin buffer: timeout".to_owned()));
        }
        Ok(self.try_to_pin(blk))
    }

    /// Gives slot `i`, offered by `pin`, the block `blk` with `page` read
    /// from disk, and pins it. Refused, with nothing changed, unless the
    /// slot is free and clean, no slot holds `blk`, and the page has the
    /// pool's page size.
    pub fn assign_to_block(&mut self, i: usize, blk: BlockId, page: Page) -> (r: bool)
        requires
            old(self).wf(),
        ensures
            final(self).wf(),
            final(self).max_wait() == old(self).max_wait(),
            final(self).page_size() == old(self).page_size(),
            r <==> {
                &&& i < old(self)@.len()
                &&& old(self)@[i as int].pins == 0
                &&& old(self)@[i as int].txn < 0
                &&& !held(old(self)@, blk@)
                &&& page@.len() == old(self).page_size()
            },
            !r ==> final(self)@ == old(self)@,
            r ==> final(self)@ == old(self)@.update(
                i as int,
                SlotView { block: Some(blk@), pins: 1, page: page@, ..old(self)@[i as int] },
            ),
    {
        if i >= self.buffer_pool.len() || self.buffer_pool[i].is_pinned() || self.buffer_pool[i].is_dirty()
            || page.length() != self.block_size {
            return false;
        }
        if self.find_existing_buffer(&blk).is_some() {
            return false;
        }
        let ghost s = self@;
        let ghost k = blk@;
        self.buffer_pool[i].assign_to_block(blk, page);
        self.buffer_pool[i].pin();
        proof {
            lemma_count_update(s, i as int, self@[i as int]);
            assert(self@ =~= s.update(i as int, self@[i as int]));
            assert forall|a: int, b: int|
                0 <= a < self@.len() && 0 <= b < self@.len() && a != b && (#[trigger] self@[a]).block is Some
                    implies self@[a].block != (#[trigger] self@[b]).block by {
                if a == i {
                    assert(self@[b] == s[b]);
                } else if b == i {
                    assert(self@[a] == s[a]);
                } else {
                    assert(self@[a] == s[a]);
                    assert(self@[b] == s[b]);
                }
            }
        }
        self.num_available = self.num_available - 1;
        true
    }
}

} // verus!

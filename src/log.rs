use crate::block::BlockId;
use crate::page::{
    bytes_at, bytes_fit, int_at, int_bytes, length_prefixed, lemma_bytes_store_load,
    lemma_int_store_load, splice, Page,
};
use vstd::prelude::*;

verus! {

/// The records stored in a log block from offset `pos` on, in storage order
/// (newest first). Reading stops at the block's end or at a record that does
/// not fit in the block.
pub open spec fn records_from(buf: Seq<u8>, pos: int) -> Seq<Seq<u8>>
    decreases buf.len() - pos,
{
    if 0 <= pos < buf.len() && bytes_fit(buf, pos) {
        seq![bytes_at(buf, pos)] + records_from(buf, pos + 4 + int_at(buf, pos))
    } else {
        Seq::empty()
    }
}

/// The records of a log block, newest first: those from its boundary on.
pub open spec fn log_records(buf: Seq<u8>) -> Seq<Seq<u8>> {
    if buf.len() >= 4 {
        records_from(buf, int_at(buf, 0) as int)
    } else {
        Seq::empty()
    }
}

/// A log block: its size fits an `i32`, and its boundary lies between the
/// header and the block's end.
pub open spec fn log_block_wf(buf: Seq<u8>) -> bool {
    &&& 4 <= buf.len() <= i32::MAX
    &&& 4 <= int_at(buf, 0) <= buf.len()
}

/// Whether a record of `n` bytes fits in a log block whose boundary is at `boundary`.
pub open spec fn record_fits(boundary: int, n: int) -> bool {
    n + 8 <= boundary
}

/// The log block `buf` with the record `rec` added in front of the others.
pub open spec fn block_with_record(buf: Seq<u8>, rec: Seq<u8>) -> Seq<u8> {
    let recpos = int_at(buf, 0) - (rec.len() + 4);
    splice(splice(buf, recpos, length_prefixed(rec)), 0, int_bytes(recpos as i32))
}

/// An empty log block of `n` bytes.
pub open spec fn empty_log_block(n: nat) -> Seq<u8> {
    splice(Seq::new(n, |i: int| 0u8), 0, int_bytes(n as i32))
}

/// The records read from `pos` on depend only on the bytes from `p <= pos` on.
pub proof fn lemma_records_frame(b1: Seq<u8>, b2: Seq<u8>, p: int, pos: int)
    requires
        b1.len() == b2.len(),
        0 <= p <= pos,
        forall|i: int| p <= i < b1.len() ==> b1[i] == b2[i],
    ensures
        records_from(b1, pos) == records_from(b2, pos),
    decreases b1.len() - pos,
{
    if 0 <= pos < b1.len() && pos + 4 <= b1.len() {
        assert(b1.subrange(pos, pos + 4) =~= b2.subrange(pos, pos + 4));
        if bytes_fit(b1, pos) {
            assert(bytes_at(b1, pos) =~= bytes_at(b2, pos));
            lemma_records_frame(b1, b2, p, pos + 4 + int_at(b1, pos));
        }
    }
}

/// Adding a record to a log block puts it in front of the block's records.
pub proof fn lemma_block_with_record(buf: Seq<u8>, rec: Seq<u8>)
    requires
        log_block_wf(buf),
        record_fits(int_at(buf, 0) as int, rec.len() as int),
    ensures
        log_block_wf(block_with_record(buf, rec)),
        log_records(block_with_record(buf, rec)) == seq![rec] + log_records(buf),
{
    let boundary = int_at(buf, 0) as int;
    let recpos = boundary - (rec.len() + 4);
    let b1 = splice(buf, recpos, length_prefixed(rec));
    let b2 = splice(b1, 0, int_bytes(recpos as i32));
    lemma_bytes_store_load(buf, recpos, rec);
    lemma_int_store_load(b1, 0, recpos as i32);
    assert(b2 == block_with_record(buf, rec));
    assert forall|i: int| 4 <= i < b1.len() implies b1[i] == b2[i] by {}
    lemma_records_frame(b2, b1, 4, recpos);
    assert forall|i: int| boundary <= i < b1.len() implies b1[i] == buf[i] by {}
    lemma_records_frame(b1, buf, boundary, boundary);
    assert(records_from(b1, recpos) == seq![rec] + records_from(b1, boundary));
}

/// Adding records one after another to a log block, while each fits.
pub open spec fn block_with_records(buf: Seq<u8>, recs: Seq<Seq<u8>>) -> Seq<u8>
    decreases recs.len(),
{
    if recs.len() == 0 {
        buf
    } else {
        block_with_record(block_with_records(buf, recs.drop_last()), recs.last())
    }
}

/// Each record added to a log block takes its length and four bytes more.
pub open spec fn space_needed(recs: Seq<Seq<u8>>) -> int
    decreases recs.len(),
{
    if recs.len() == 0 {
        0
    } else {
        space_needed(recs.drop_last()) + recs.last().len() + 4
    }
}

/// Records added to a log block, with room for all of them, are read back
/// newest first, before the records that were there already.
pub proof fn lemma_block_reads_back(buf: Seq<u8>, recs: Seq<Seq<u8>>)
    requires
        log_block_wf(buf),
        space_needed(recs) + 4 <= int_at(buf, 0),
    ensures
        log_block_wf(block_with_records(buf, recs)),
        int_at(block_with_records(buf, recs), 0) == int_at(buf, 0) - space_needed(recs),
        log_records(block_with_records(buf, recs)) == recs.reverse() + log_records(buf),
    decreases recs.len(),
{
    if recs.len() > 0 {
        let prev = block_with_records(buf, recs.drop_last());
        assert(space_needed(recs.drop_last()) >= 0) by {
            lemma_space_needed_nonneg(recs.drop_last());
        }
        lemma_block_reads_back(buf, recs.drop_last());
        lemma_block_with_record(prev, recs.last());
        let b = int_at(prev, 0) - (recs.last().len() + 4);
        lemma_int_store_load(splice(prev, b, length_prefixed(recs.last())), 0, b as i32);
        assert(recs.reverse() =~= seq![recs.last()] + recs.drop_last().reverse());
    }
}

proof fn lemma_space_needed_nonneg(recs: Seq<Seq<u8>>)
    ensures
        space_needed(recs) >= 0,
    decreases recs.len(),
{
    if recs.len() > 0 {
        lemma_space_needed_nonneg(recs.drop_last());
    }
}

/// The tail of the log: the last block of the log file, held in memory,
/// and the log sequence numbers given out and saved so far. Disk work is
/// the caller's: it writes the tail page when `needs_flush` says so, and
/// starts a new block when a record does not fit.
pub struct LogManager {
    logfile: String,
    logpage: Page,
    current_blk: BlockId,
    latest_lsn: i32,
    last_saved_lsn: i32,
}

impl LogManager {
    pub closed spec fn wf(&self) -> bool {
        &&& log_block_wf(self.logpage@)
        &&& 0 <= self.last_saved_lsn <= self.latest_lsn
    }

    /// The bytes of the tail page.
    pub closed spec fn tail(&self) -> Seq<u8> {
        self.logpage@
    }

    /// The block that the tail page belongs to.
    pub closed spec fn tail_block(&self) -> (Seq<char>, u64) {
        self.current_blk@
    }

    /// The name of the log file.
    pub closed spec fn file(&self) -> Seq<char> {
        self.logfile@
    }

    /// The sequence number of the latest record.
    pub closed spec fn latest(&self) -> i32 {
        self.latest_lsn
    }

    /// The sequence number that the last flush covered.
    pub closed spec fn saved(&self) -> i32 {
        self.last_saved_lsn
    }

    /// No flush has covered more than the latest record, so a flush up to
    /// the latest record always writes the tail page.
    pub proof fn lemma_latest_needs_flush(&self)
        requires
            self.wf(),
        ensures
            self.saved() <= self.latest(),
    {
    }

    /// Whether `page` holds a log block.
    pub fn is_log_block(page: &Page) -> (r: bool)
        ensures
            r == log_block_wf(page@),
    {
        let n = page.length();
        if n < 4 || n > i32::MAX as usize {
            return false;
        }
        let b = page.get_int(0);
        4 <= b && b as usize <= n
    }

    /// An empty log block of `block_size` bytes: its boundary is its end.
    pub fn empty_block(block_size: usize) -> (r: Page)
        requires
            4 <= block_size <= i32::MAX,
        ensures
            r@ == empty_log_block(block_size as nat),
            r@.len() == block_size,
            int_at(r@, 0) == block_size,
            log_block_wf(r@),
            log_records(r@) == Seq::<Seq<u8>>::empty(),
    {
        let mut page = Page::new(block_size);
        page.set_int(0, block_size as i32);
        proof {
            lemma_int_store_load(Seq::new(block_size as nat, |i: int| 0u8), 0, block_size as i32);
        }
        page
    }

    /// A log whose tail is `page`, the contents of block `current_blk` of
    /// `logfile`. Sequence numbers start at 0.
    pub fn new(logfile: String, current_blk: BlockId, page: Page) -> (r: LogManager)
        requires
            log_block_wf(page@),
        ensures
            r.wf(),
            r.file() == logfile@,
            r.tail() == page@,
            r.tail_block() == current_blk@,
            r.latest() == 0,
            r.saved() == 0,
    {
        LogManager { logfile, logpage: page, current_blk, latest_lsn: 0, last_saved_lsn: 0 }
    }

    pub fn logfile(&self) -> (r: &str)
        ensures
            r@ == self.file(),
    {
        self.logfile.as_str()
    }

    pub fn current_block(&self) -> (r: &BlockId)
        ensures
            r@ == self.tail_block(),
    {
        &self.current_blk
    }

    /// The tail page, to be written to the current block.
    pub fn page(&self) -> (r: &Page)
        ensures
            r@ == self.tail(),
    {
        &self.logpage
    }

    pub fn latest_lsn(&self) -> (r: i32)
        ensures
            r == self.latest(),
    {
        self.latest_lsn
    }

    /// Whether a record of `n` bytes fits in a fresh block of this log.
    pub fn fits_in_empty_block(&self, n: usize) -> (r: bool)
        requires
            self.wf(),
        ensures
            r == record_fits(self.tail().len() as int, n as int),
    {
        let len = self.logpage.length();
        len >= 8 && n <= len - 8
    }

    /// Appends `logrec` to the tail page and returns its sequence number.
    /// When the record does not fit in the tail block, nothing changes and
    /// the result is `None`: the caller then saves the tail and starts a new
    /// block with `move_to_new_block`.
    pub fn append(&mut self, logrec: &[u8]) -> (r: Option<i32>)
        requires
            old(self).wf(),
            old(self).latest() < i32::MAX,
        ensures
            final(self).wf(),
            final(self).file() == old(self).file(),
            final(self).tail_block() == old(self).tail_block(),
            final(self).saved() == old(self).saved(),
            r is Some <==> record_fits(int_at(old(self).tail(), 0) as int, logrec@.len() as int),
            r is None ==> *final(self) == *old(self),
            r is Some ==> {
                &&& r->Some_0 == old(self).latest() + 1
                &&& final(self).latest() == r->Some_0
                &&& final(self).tail() == block_with_record(old(self).tail(), logrec@)
                &&& log_records(final(self).tail()) == seq![logrec@] + log_records(old(self).tail())
            },
    {
        let boundary = self.logpage.get_int(0) as usize;
        let recsize = logrec.len();
        if boundary < 8 || recsize > boundary - 8 {
            return None;
        }
        proof {
            lemma_block_with_record(self.logpage@, logrec@);
        }
        let recpos = boundary - (recsize + 4);
        self.logpage.set_bytes(recpos, logrec);
        self.logpage.set_int(0, recpos as i32);
        self.latest_lsn = self.latest_lsn + 1;
        Some(self.latest_lsn)
    }

    /// Makes `blk`, a block just added to the log file, the tail, with an
    /// empty page. The caller saves the old tail first and writes the new
    /// empty page to `blk`.
    pub fn move_to_new_block(&mut self, blk: BlockId)
        requires
            old(self).wf(),
        ensures
            final(self).wf(),
            final(self).file() == old(self).file(),
            final(self).tail_block() == blk@,
            final(self).tail() == empty_log_block(old(self).tail().len()),
            final(self).tail().len() == old(self).tail().len(),
            int_at(final(self).tail(), 0) == old(self).tail().len(),
            final(self).latest() == old(self).latest(),
            final(self).saved() == old(self).saved(),
    {
        self.logpage = LogManager::empty_block(self.logpage.length());
        self.current_blk = blk;
    }

    /// Whether making the record `lsn` durable needs the tail page written:
    /// a record saved by an earlier flush needs nothing.
    pub fn needs_flush(&self, lsn: i32) -> (r: bool)
        ensures
            r == (lsn >= self.saved()),
    {
        lsn >= self.last_saved_lsn
    }

    /// Records that the tail page was written: every record so far is saved.
    pub fn flushed(&mut self)
        requires
            old(self).wf(),
        ensures
            final(self).wf(),
            final(self).saved() == old(self).latest(),
            final(self).latest() == old(self).latest(),
            final(self).tail() == old(self).tail(),
            final(self).tail_block() == old(self).tail_block(),
            final(self).file() == old(self).file(),
    {
        self.last_saved_lsn = self.latest_lsn;
    }
}

/// Reads the records of a log newest first, one block at a time. The
/// caller reads each earlier block from disk and hands it over with
/// `move_to_block` once the current one is used up.
pub struct LogIterator {
    block: BlockId,
    page: Page,
    current_pos: usize,
}

impl LogIterator {
    /// The records of the current block still to be read.
    pub closed spec fn remaining(&self) -> Seq<Seq<u8>> {
        records_from(self.page@, self.current_pos as int)
    }

    pub closed spec fn block_spec(&self) -> (Seq<char>, u64) {
        self.block@
    }

    /// The first position of a block's records, clamped to the block.
    fn start_of(page: &Page) -> (r: usize)
        ensures
            records_from(page@, r as int) == log_records(page@),
    {
        let n = page.length();
        if n < 4 {
            return n;
        }
        let b = page.get_int(0);
        if b < 0 || b as usize > n {
            n
        } else {
            b as usize
        }
    }

    /// An iterator positioned at the newest record of `page`, the contents of `block`.
    pub fn new(block: BlockId, page: Page) -> (r: LogIterator)
        ensures
            r.remaining() == log_records(page@),
            r.block_spec() == block@,
    {
        let current_pos = LogIterator::start_of(&page);
        LogIterator { block, page, current_pos }
    }

    /// Moves to `block`, whose contents are `page`, at its newest record.
    pub fn move_to_block(&mut self, block: BlockId, page: Page)
        ensures
            final(self).remaining() == log_records(page@),
            final(self).block_spec() == block@,
    {
        self.current_pos = LogIterator::start_of(&page);
        self.block = block;
        self.page = page;
    }

    pub fn block(&self) -> (r: &BlockId)
        ensures
            r@ == self.block_spec(),
    {
        &self.block
    }

    /// The block to read once this one is used up: the one before it, if any.
    pub fn previous_block(&self) -> (r: Option<BlockId>)
        ensures
            r is None <==> self.block_spec().1 == 0,
            r is Some ==> r->Some_0@ == (self.block_spec().0, (self.block_spec().1 - 1) as u64),
    {
        if self.block.number() == 0 {
            None
        } else {
            Some(self.block.previous())
        }
    }

    /// The next record of the current block, newest first; `None` once the
    /// block is used up.
    pub fn next(&mut self) -> (r: Option<Vec<u8>>)
        ensures
            final(self).block_spec() == old(self).block_spec(),
            old(self).remaining().len() == 0 ==> r is None && final(self).remaining().len() == 0,
            old(self).remaining().len() > 0 ==> r is Some && r->Some_0@ == old(self).remaining()[0]
                && final(self).remaining() == old(self).remaining().drop_first(),
    {
        let n = self.page.length();
        let pos = self.current_pos;
        if pos >= n || n - pos < 4 {
            return None;
        }
        let len = self.page.get_int(pos);
        if len < 0 || len as usize > n - pos - 4 {
            return None;
        }
        let bytes = self.page.get_bytes(pos);
        self.current_pos = pos + 4 + bytes.len();
        proof {
            assert(old(self).remaining() == seq![bytes@] + records_from(self.page@, self.current_pos as int));
            assert(old(self).remaining().drop_first() =~= records_from(self.page@, self.current_pos as int));
        }
        Some(bytes)
    }
}

} // verus!

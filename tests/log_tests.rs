use simpledb::log::{LogIterator, LogManager};
use simpledb::page::Page;
use simpledb::BlockId;

const INT_SIZE: usize = 4;

/// The blocks of one log file, kept in memory.
struct Disk {
    blocks: Vec<Vec<u8>>,
    block_size: usize,
}

fn new_log(block_size: usize) -> (Disk, LogManager) {
    let empty = LogManager::empty_block(block_size);
    let disk = Disk { blocks: vec![empty.contents().to_vec()], block_size };
    let lm = LogManager::new("simpledb.log".to_string(), BlockId::new("simpledb.log", 0), empty);
    (disk, lm)
}

fn save_tail(disk: &mut Disk, lm: &mut LogManager) {
    let n = lm.current_block().number() as usize;
    disk.blocks[n] = lm.page().contents().to_vec();
    lm.flushed();
}

fn append(disk: &mut Disk, lm: &mut LogManager, rec: &[u8]) -> i32 {
    match lm.append(rec) {
        Some(lsn) => lsn,
        None => {
            assert!(lm.fits_in_empty_block(rec.len()));
            save_tail(disk, lm);
            let blk = BlockId::new(lm.logfile(), disk.blocks.len() as u64);
            disk.blocks.push(LogManager::empty_block(disk.block_size).contents().to_vec());
            lm.move_to_new_block(blk);
            lm.append(rec).unwrap()
        }
    }
}

fn flush(disk: &mut Disk, lm: &mut LogManager, lsn: i32) {
    if lm.needs_flush(lsn) {
        save_tail(disk, lm);
    }
}

fn read_all(disk: &mut Disk, lm: &mut LogManager) -> Vec<Vec<u8>> {
    save_tail(disk, lm);
    let blk = lm.current_block().clone();
    let page = Page::from_bytes(disk.blocks[blk.number() as usize].clone());
    let mut it = LogIterator::new(blk, page);
    let mut out = Vec::new();
    loop {
        match it.next() {
            Some(rec) => out.push(rec),
            None => match it.previous_block() {
                Some(prev) => {
                    let page = Page::from_bytes(disk.blocks[prev.number() as usize].clone());
                    it.move_to_block(prev, page);
                }
                None => return out,
            },
        }
    }
}

fn create_log_record(s: &str, n: i32) -> Vec<u8> {
    let spos = 0;
    let npos = Page::max_length(s.len());
    let mut page = Page::new(npos + INT_SIZE);
    page.set_string(spos, s);
    page.set_int(npos, n);
    page.contents().to_vec()
}

fn create_records(disk: &mut Disk, lm: &mut LogManager, start: i32, end: i32) -> Vec<i32> {
    let mut lsns = Vec::new();
    for i in start..=end {
        let rec = create_log_record(&format!("record{}", i), i + 100);
        lsns.push(append(disk, lm, &rec));
    }
    lsns
}

fn print_log_records(disk: &mut Disk, lm: &mut LogManager) -> Vec<(String, i32)> {
    let mut records = Vec::new();
    for rec in read_all(disk, lm) {
        let page = Page::from_bytes(rec);
        let s = page.get_string(0);
        let npos = Page::max_length(s.len());
        let val = page.get_int(npos);
        records.push((s, val));
    }
    records
}

#[test]
fn test_log_operations() {
    let (mut disk, mut lm) = new_log(400);
    let lm = &mut lm;
    let disk = &mut disk;

    let records = print_log_records(disk, lm);
    assert!(records.is_empty(), "Initial log should be empty");

    let lsn1 = create_records(disk, lm, 1, 35);
    assert_eq!(lsn1.len(), 35);

    let records = print_log_records(disk, lm);
    assert_eq!(records.len(), 35);
    assert_eq!(records[0].0, "record35");
    assert_eq!(records[0].1, 135);

    let lsns2 = create_records(disk, lm, 36, 70);
    assert_eq!(lsns2.len(), 35);

    flush(disk, lm, 65);

    let records = print_log_records(disk, lm);
    assert_eq!(records.len(), 70);
    assert_eq!(records[0].0, "record70");
    assert_eq!(records[0].1, 170);
    assert_eq!(records[69].0, "record1");
    assert_eq!(records[69].1, 101);
}

#[test]
fn records_cross_blocks_in_reverse_order() {
    let (mut disk, mut lm) = new_log(400);
    let mut lsns = Vec::new();
    for i in 0..30u8 {
        lsns.push(append(&mut disk, &mut lm, &[i; 30]));
    }
    assert!(disk.blocks.len() > 1);
    assert_eq!(lsns, (1..=30).collect::<Vec<i32>>());
    let got = read_all(&mut disk, &mut lm);
    let want: Vec<Vec<u8>> = (0..30u8).rev().map(|i| vec![i; 30]).collect();
    assert_eq!(got, want);
}

#[test]
fn append_writes_at_the_boundary() {
    let (_disk, mut lm) = new_log(40);
    assert_eq!(lm.page().get_int(0), 40);
    assert_eq!(lm.append(&[1, 2, 3]), Some(1));
    assert_eq!(lm.page().get_int(0), 33);
    assert_eq!(lm.page().get_bytes(33), vec![1, 2, 3]);
    assert_eq!(lm.latest_lsn(), 1);
}

#[test]
fn record_that_does_not_fit_changes_nothing() {
    let (_disk, mut lm) = new_log(20);
    assert_eq!(lm.append(&[0; 8]), Some(1));
    assert_eq!(lm.page().get_int(0), 8);
    assert_eq!(lm.append(&[0; 1]), None);
    assert_eq!(lm.latest_lsn(), 1);
    assert_eq!(lm.page().get_int(0), 8);
    assert!(lm.fits_in_empty_block(12));
    assert!(!lm.fits_in_empty_block(13));
}

#[test]
fn flush_below_the_saved_lsn_is_a_no_op() {
    let (mut disk, mut lm) = new_log(400);
    append(&mut disk, &mut lm, &[1]);
    append(&mut disk, &mut lm, &[2]);
    assert!(lm.needs_flush(0));
    flush(&mut disk, &mut lm, 2);
    assert!(!lm.needs_flush(1));
    assert!(lm.needs_flush(2));
    append(&mut disk, &mut lm, &[3]);
    assert!(lm.needs_flush(3));
}

#[test]
fn log_block_check() {
    assert!(LogManager::is_log_block(&LogManager::empty_block(16)));
    assert!(!LogManager::is_log_block(&Page::new(16)));
    assert!(!LogManager::is_log_block(&Page::new(3)));
    let mut p = Page::new(16);
    p.set_int(0, 17);
    assert!(!LogManager::is_log_block(&p));
}

#[test]
fn iterator_on_damaged_block_stops() {
    let mut p = Page::new(16);
    p.set_int(0, 100);
    let mut it = LogIterator::new(BlockId::new("l", 0), p);
    assert_eq!(it.next(), None);
    let mut q = Page::new(16);
    q.set_int(0, 8);
    q.set_int(8, 50);
    it.move_to_block(BlockId::new("l", 3), q);
    assert_eq!(it.next(), None);
    assert_eq!(it.previous_block().unwrap().number(), 2);
}

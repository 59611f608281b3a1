use simpledb::buffer::{BufferError, BufferManager, BufferPage, FlushStep, PinStep};
use simpledb::page::Page;
use simpledb::BlockId;

const BLOCK_SIZE: usize = 400;

/// Pins `block`, giving a free slot a fresh page where one is offered.
fn pin(bm: &mut BufferManager, block: BlockId) -> Result<usize, BufferError> {
    match bm.pin(&block, 0)? {
        PinStep::Pinned(i) => Ok(i),
        PinStep::Assign(i) => {
            assert!(!bm.slot(i).is_dirty());
            assert!(bm.assign_to_block(i, block, Page::new(BLOCK_SIZE)));
            Ok(i)
        }
        PinStep::Wait => bm.pin(&block, bm.max_time()).map(|_| 0),
    }
}

#[test]
fn test_buffer_pinning() {
    let mut bm = BufferManager::new_with_timeout(BLOCK_SIZE, 3, 100);

    assert_eq!(bm.available(), 3, "All buffers should be available");

    let block1 = BlockId::new("test_file1", 1);
    let block2 = BlockId::new("test_file1", 2);
    let block3 = BlockId::new("test_file1", 3);
    let block4 = BlockId::new("test_file1", 4);

    let buff1 = pin(&mut bm, block1).unwrap();
    assert_eq!(bm.available(), 2);
    let _buff2 = pin(&mut bm, block2).unwrap();
    assert_eq!(bm.available(), 1);
    let _buff3 = pin(&mut bm, block3).unwrap();
    assert_eq!(bm.available(), 0);

    bm.unpin(buff1);
    assert_eq!(bm.available(), 1);

    let _buff4 = pin(&mut bm, block4).unwrap();
    assert_eq!(bm.available(), 0);
}

#[test]
fn test_buffer_pin_timeout() {
    let mut bm = BufferManager::new_with_timeout(BLOCK_SIZE, 3, 100);

    assert_eq!(bm.available(), 3, "All buffers should be available");

    let block1 = BlockId::new("test_file1", 1);
    let block2 = BlockId::new("test_file1", 2);
    let block3 = BlockId::new("test_file1", 3);
    let block4 = BlockId::new("test_file1", 4);

    let _buff1 = pin(&mut bm, block1).unwrap();
    assert_eq!(bm.available(), 2);
    let _buff2 = pin(&mut bm, block2).unwrap();
    assert_eq!(bm.available(), 1);
    let _buff3 = pin(&mut bm, block3).unwrap();
    assert_eq!(bm.available(), 0);

    match pin(&mut bm, block4.clone()) {
        Err(BufferError(msg)) => {
            assert!(msg.contains("timeout"));
        }
        Ok(_) => panic!("Expected buffer pin to fail with timeout"),
    }
}

#[test]
fn full_pool_waits_before_the_deadline() {
    let mut bm = BufferManager::new_with_timeout(BLOCK_SIZE, 1, 100);
    pin(&mut bm, BlockId::new("f", 1)).unwrap();
    assert_eq!(bm.pin(&BlockId::new("f", 2), 99).unwrap(), PinStep::Wait);
    assert!(bm.pin(&BlockId::new("f", 2), 100).is_err());
}

#[test]
fn pinning_a_held_block_reuses_its_slot() {
    let mut bm = BufferManager::new(BLOCK_SIZE, 2);
    assert_eq!(bm.max_time(), 10_000);
    let b = BlockId::new("f", 7);
    let i = pin(&mut bm, b.clone()).unwrap();
    assert_eq!(bm.pin(&b, 0).unwrap(), PinStep::Pinned(i));
    assert_eq!(bm.slot(i).pin_count(), 2);
    assert_eq!(bm.available(), 1);
    bm.unpin(i);
    assert_eq!(bm.available(), 1);
    bm.unpin(i);
    assert_eq!(bm.available(), 2);
    // The unpinned slot still holds the block and is found again.
    assert_eq!(bm.pin(&b, 0).unwrap(), PinStep::Pinned(i));
    assert_eq!(bm.available(), 1);
}

#[test]
fn unpin_past_zero_does_not_underflow() {
    let mut bm = BufferManager::new(BLOCK_SIZE, 2);
    bm.unpin(0);
    assert_eq!(bm.slot(0).pin_count(), 0);
    assert_eq!(bm.available(), 2);
}

#[test]
fn assignment_is_refused_for_held_blocks_and_dirty_slots() {
    let mut bm = BufferManager::new(BLOCK_SIZE, 2);
    let b = BlockId::new("f", 1);
    let i = pin(&mut bm, b.clone()).unwrap();
    assert!(!bm.assign_to_block(1 - i, b.clone(), Page::new(BLOCK_SIZE)));
    assert!(!bm.assign_to_block(i, BlockId::new("f", 2), Page::new(BLOCK_SIZE)));
    assert!(!bm.assign_to_block(1 - i, BlockId::new("f", 2), Page::new(10)));
    assert!(!bm.assign_to_block(5, BlockId::new("f", 2), Page::new(BLOCK_SIZE)));
    bm.set_modified(i, 3, 8);
    bm.unpin(i);
    assert!(!bm.assign_to_block(i, BlockId::new("f", 2), Page::new(BLOCK_SIZE)));
    bm.flushed(i);
    assert!(bm.assign_to_block(i, BlockId::new("f", 2), Page::new(BLOCK_SIZE)));
    assert_eq!(bm.available(), 1);
}

#[test]
fn flush_all_forces_log_before_each_page() {
    let mut bm = BufferManager::new(BLOCK_SIZE, 3);
    let a = pin(&mut bm, BlockId::new("f", 1)).unwrap();
    let b = pin(&mut bm, BlockId::new("f", 2)).unwrap();
    let c = pin(&mut bm, BlockId::new("f", 3)).unwrap();
    bm.set_modified(a, 5, 11);
    bm.set_modified(b, 6, 12);
    bm.set_modified(c, 5, 13);
    let steps = bm.flush_all(5);
    assert_eq!(
        steps,
        vec![
            FlushStep::ForceLog(11),
            FlushStep::WritePage(a),
            FlushStep::ForceLog(13),
            FlushStep::WritePage(c),
        ]
    );
    assert!(bm.flush_all(7).is_empty());
    assert!(bm.flush_all(-1).is_empty());
    bm.flushed(a);
    assert_eq!(bm.slot(a).modifying_txn(), -1);
    assert_eq!(bm.flush_all(5), vec![FlushStep::ForceLog(13), FlushStep::WritePage(c)]);
}

#[test]
fn pages_change_through_the_pool() {
    let mut bm = BufferManager::new(BLOCK_SIZE, 1);
    let i = pin(&mut bm, BlockId::new("f", 1)).unwrap();
    bm.page_mut(i).set_int(80, 42);
    assert_eq!(bm.slot(i).page().get_int(80), 42);
    assert_eq!(bm.available(), 0);
}

#[test]
fn test_buffer_page_operations() {
    let mut buffer = BufferPage::new(400);

    assert!(!buffer.is_pinned());
    assert_eq!(buffer.modifying_txn(), -1);

    buffer.pin();
    assert!(buffer.is_pinned());
    assert_eq!(buffer.pin_count(), 1);

    buffer.unpin();
    assert!(!buffer.is_pinned());

    let block = BlockId::new("testfile", 1);
    buffer.assign_to_block(block.clone(), Page::new(400));
    assert!(buffer.block() == Some(&block));

    {
        let page = buffer.contents();
        page.set_int(80, 42);
    }

    buffer.set_modified(1, 0);
    assert_eq!(buffer.modifying_txn(), 1);

    assert!(buffer.is_dirty());
    buffer.flushed();
    assert_eq!(buffer.modifying_txn(), -1);
    assert_eq!(buffer.page().get_int(80), 42);
}

#[test]
fn test_multiple_modifications() {
    let mut buffer = BufferPage::new(400);
    let block = BlockId::new("testfile", 1);

    buffer.assign_to_block(block.clone(), Page::new(400));

    {
        let page = buffer.contents();
        page.set_int(80, 100);
    }
    buffer.set_modified(1, 0);
    buffer.flushed();

    {
        let page = buffer.contents();
        page.set_int(80, 200);
    }
    buffer.set_modified(2, 1);

    assert_eq!(buffer.modifying_txn(), 2);
}

#[test]
fn negative_lsn_keeps_the_earlier_one() {
    let mut buffer = BufferPage::new(16);
    buffer.set_modified(1, 9);
    buffer.set_modified(2, -1);
    assert_eq!(buffer.lsn(), 9);
    assert_eq!(buffer.modifying_txn(), 2);
}

#[test]
fn unpin_saturates_at_zero() {
    let mut buffer = BufferPage::new(16);
    buffer.unpin();
    assert_eq!(buffer.pin_count(), 0);
    assert!(!buffer.is_pinned());
}

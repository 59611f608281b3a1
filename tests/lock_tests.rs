use simpledb::concurrency::ConcurrencyManager;
use simpledb::lock_table::{LockAbortError, LockTable};
use simpledb::BlockId;

#[test]
fn shared_locks_are_compatible() {
    let mut table = LockTable::new();
    let b = BlockId::new("f", 1);
    assert_eq!(table.slock(b.clone()), Ok(()));
    assert_eq!(table.slock(b.clone()), Ok(()));
    assert_eq!(table.get_lock_value(&b), 2);
    // A third transaction takes its shared lock, then cannot upgrade while the others hold theirs.
    assert_eq!(table.slock(b.clone()), Ok(()));
    assert_eq!(table.x_lock(&b), Err(LockAbortError));
    assert_eq!(table.get_lock_value(&b), 3);
    assert!(!table.unlock(b.clone()));
    assert!(!table.unlock(b.clone()));
    assert_eq!(table.x_lock(&b), Ok(()));
    assert_eq!(table.get_lock_value(&b), -1);
}

#[test]
fn single_shared_holder_upgrades_at_once() {
    let mut table = LockTable::new();
    let b = BlockId::new("f", 1);
    table.slock(b.clone()).unwrap();
    assert_eq!(table.x_lock(&b), Ok(()));
    assert!(table.has_xlock(&b));
}

#[test]
fn shared_lock_refused_under_exclusive() {
    let mut table = LockTable::new_with_timeout(200);
    let b = BlockId::new("f", 1);
    table.slock(b.clone()).unwrap();
    table.x_lock(&b).unwrap();
    assert_eq!(table.slock(b.clone()), Err(LockAbortError));
    assert_eq!(table.get_lock_value(&b), -1);
    assert!(!table.waiting_too_long(200));
    assert!(table.waiting_too_long(201));
    assert!(table.unlock(b.clone()));
    assert_eq!(table.get_lock_value(&b), 0);
    assert_eq!(table.slock(b.clone()), Ok(()));
}

#[test]
fn unlock_of_unlocked_block_is_harmless() {
    let mut table = LockTable::new();
    let b = BlockId::new("f", 1);
    assert!(table.unlock(b.clone()));
    assert_eq!(table.get_lock_value(&b), 0);
}

#[test]
fn default_lock_wait_is_ten_seconds() {
    let table = LockTable::new();
    assert_eq!(table.max_time(), 10_000);
    assert!(!table.waiting_too_long(10_000));
    assert!(table.waiting_too_long(10_001));
}

#[test]
fn lock_abort_message() {
    assert_eq!(LockAbortError.to_string(), "Lock acquisition aborted due to timeout");
}

#[test]
fn transaction_locks_and_release() {
    let mut table = LockTable::new();
    let mut t1 = ConcurrencyManager::new();
    let mut t2 = ConcurrencyManager::new();
    let a = BlockId::new("f", 1);
    let b = BlockId::new("f", 2);
    t1.slock(&mut table, a.clone()).unwrap();
    t1.slock(&mut table, a.clone()).unwrap();
    assert_eq!(table.get_lock_value(&a), 1);
    t2.slock(&mut table, a.clone()).unwrap();
    assert_eq!(table.get_lock_value(&a), 2);
    assert_eq!(t1.xlock(&mut table, a.clone()), Err(LockAbortError));
    t2.release(&mut table);
    assert_eq!(table.get_lock_value(&a), 1);
    assert_eq!(t1.xlock(&mut table, a.clone()), Ok(()));
    assert_eq!(table.get_lock_value(&a), -1);
    assert_eq!(t1.xlock(&mut table, a.clone()), Ok(()));
    assert_eq!(t2.slock(&mut table, a.clone()), Err(LockAbortError));
    t1.xlock(&mut table, b.clone()).unwrap();
    assert_eq!(table.get_lock_value(&b), -1);
    t1.release(&mut table);
    assert_eq!(table.get_lock_value(&a), 0);
    assert_eq!(table.get_lock_value(&b), 0);
    assert_eq!(t2.slock(&mut table, a.clone()), Ok(()));
}

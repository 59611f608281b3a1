use simpledb::page::Page;
use simpledb::BlockId;

#[test]
fn test_int_operations() {
    let mut page = Page::new(100);
    page.set_int(2, 42);
    assert_eq!(page.get_int(2), 42);
}

#[test]
fn test_string_operations() {
    let mut page = Page::new(100);
    let test_str = "Hello, world!";
    page.set_string(5, test_str);
    assert_eq!(page.get_string(5), test_str);
}

#[test]
fn test_blockid_creation() {
    let block = BlockId::new("test.txt", 1);
    assert_eq!(block.filename(), "test.txt");
    assert_eq!(block.number(), 1);
}

#[test]
fn int_is_stored_big_endian() {
    let mut page = Page::new(8);
    page.set_int(0, 0x01020304);
    page.set_int(4, -2);
    assert_eq!(page.contents(), &[1, 2, 3, 4, 0xff, 0xff, 0xff, 0xfe]);
    assert_eq!(page.get_int(4), -2);
}

#[test]
fn int_round_trip_extremes() {
    let mut page = Page::new(12);
    page.set_int(0, i32::MIN);
    page.set_int(4, i32::MAX);
    page.set_int(8, 0);
    assert_eq!(page.get_int(0), i32::MIN);
    assert_eq!(page.get_int(4), i32::MAX);
    assert_eq!(page.get_int(8), 0);
}

#[test]
fn bytes_round_trip_keeps_neighbours() {
    let mut page = Page::new(20);
    page.set_int(0, 7);
    page.set_bytes(4, &[9, 8, 7]);
    assert_eq!(page.get_bytes(4), vec![9, 8, 7]);
    assert_eq!(page.get_int(4), 3);
    assert_eq!(page.get_int(0), 7);
    assert_eq!(page.length(), 20);
}

#[test]
fn empty_bytes_round_trip() {
    let mut page = Page::new(4);
    page.set_bytes(0, &[]);
    assert_eq!(page.get_bytes(0), Vec::<u8>::new());
}

#[test]
fn non_ascii_string_round_trip() {
    let mut page = Page::new(Page::max_length(3));
    page.set_string(0, "héé");
    assert_eq!(page.get_int(0), 5);
    assert_eq!(page.get_string(0), "héé");
}

#[test]
fn invalid_utf8_reads_as_empty_string() {
    let mut page = Page::new(10);
    page.set_bytes(0, &[0xff, 0xfe]);
    assert_eq!(page.get_string(0), "");
}

#[test]
fn max_length_formula() {
    assert_eq!(Page::max_length(0), 4);
    assert_eq!(Page::max_length(7), 32);
}

#[test]
fn from_bytes_keeps_bytes() {
    let page = Page::from_bytes(vec![0, 0, 0, 5]);
    assert_eq!(page.get_int(0), 5);
    assert_eq!(page.length(), 4);
}

#[test]
fn block_ids_compare_by_value() {
    let a = BlockId::new("f", 3);
    assert!(a == BlockId::new("f", 3));
    assert!(a != BlockId::new("f", 4));
    assert!(a != BlockId::new("g", 3));
    assert!(a.clone() == a);
    let p = a.previous();
    assert_eq!(p.number(), 2);
    assert_eq!(p.filename(), "f");
}

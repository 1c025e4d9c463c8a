use std::cmp::Ordering;
use scottdb::order::{compare_bytes, compare_internal};
use scottdb::{Comparator, DefaultComparator, Options};

fn options(level0_size: usize, size_factor: usize) -> Options {
    Options::new("db", 8, level0_size, size_factor, 16, 1 << 20, 64, 1024)
}

#[test]
fn options_fields() {
    let o = options(10, 4);
    assert_eq!(o.db_name, "db");
    assert_eq!(o.cache_count, 8);
    assert_eq!(o.max_open_files, 16);
    assert_eq!(o.table_size, 1 << 20);
    assert_eq!(o.key_size_max, 64);
    assert_eq!(o.value_size_max, 1024);
}

#[test]
fn level_sizes() {
    assert_eq!(options(10, 10).level_size(0), Some(10));
    assert_eq!(options(10, 10).level_size(2), Some(1000));
    assert_eq!(options(3, 2).level_size(5), Some(96));
    assert_eq!(options(0, usize::MAX).level_size(9), Some(0));
    assert_eq!(options(7, 0).level_size(3), Some(0));
    assert_eq!(options(2, 1 << 32).level_size(2), None);
    assert_eq!(options(usize::MAX, 2).level_size(1), None);
}

#[test]
fn byte_order() {
    assert_eq!(compare_bytes(b"abc", b"abd"), Ordering::Less);
    assert_eq!(compare_bytes(b"ab", b"abc"), Ordering::Less);
    assert_eq!(compare_bytes(b"b", b"abc"), Ordering::Greater);
    assert_eq!(compare_bytes(b"", b""), Ordering::Equal);
    assert_eq!(DefaultComparator::compare(b"x", b"x"), Ordering::Equal);
    assert_eq!(DefaultComparator::compare_lexicographic(b"\xff", b"\x00\x00"), Ordering::Greater);
}

#[test]
fn internal_key_order() {
    assert_eq!(compare_internal(b"k", 9, b"k", 3), Ordering::Less);
    assert_eq!(compare_internal(b"k", 3, b"k", 9), Ordering::Greater);
    assert_eq!(compare_internal(b"k", 3, b"k", 3), Ordering::Equal);
    assert_eq!(compare_internal(b"a", 1, b"b", 9), Ordering::Less);
}

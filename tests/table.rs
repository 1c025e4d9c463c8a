use scottdb::cache::TableCacheManager;
use scottdb::codec::ScTableCatalogItem;
use scottdb::table::{ScTableCache, TableError, TABLE_MAGIC, TABLE_MAX_SIZE};

const TOMBSTONE: u32 = 0x8000_0000;

/// Builds a table file from (sequence, key, value) records, `None` marking a tombstone.
fn build_table(records: &[(u64, &[u8], Option<&[u8]>)]) -> Vec<u8> {
    let mut data: Vec<u8> = Vec::new();
    let mut catalog: Vec<u8> = Vec::new();
    for (seq, key, value) in records {
        let key_off = data.len() as u32;
        data.extend_from_slice(key);
        let (value_off, value_len) = match value {
            Some(v) => {
                let off = data.len() as u32;
                data.extend_from_slice(v);
                (off, v.len() as u32)
            }
            None => (TOMBSTONE | 0x7fff_0000, 0x1000),
        };
        ScTableCatalogItem::new(*seq, key_off, key.len() as u32, value_off, value_len)
            .serialize(&mut catalog);
    }
    assemble(&catalog, &data)
}

fn assemble(catalog: &[u8], data: &[u8]) -> Vec<u8> {
    let mut raw: Vec<u8> = Vec::new();
    raw.extend_from_slice(&(catalog.len() as u32).to_le_bytes());
    raw.extend_from_slice(&(data.len() as u32).to_le_bytes());
    raw.extend_from_slice(&crc::crc32::checksum_ieee(catalog).to_le_bytes());
    raw.extend_from_slice(&crc::crc32::checksum_ieee(data).to_le_bytes());
    raw.extend_from_slice(catalog);
    raw.extend_from_slice(data);
    raw.extend_from_slice(&TABLE_MAGIC);
    raw
}

fn parse(raw: &[u8]) -> Result<ScTableCache, TableError> {
    let manager = TableCacheManager::new(4);
    let quota = manager.acquire_quota();
    ScTableCache::from_raw(raw, quota)
}

fn sample() -> Vec<u8> {
    build_table(&[(10, b"K1", Some(b"a")), (7, b"K2", Some(b"b")), (3, b"K2", Some(b"c"))])
}

#[test]
fn parses_valid_table() {
    let t = parse(&sample()).unwrap();
    assert_eq!(t.catalog_size(), 3);
}

#[test]
fn lookup_exact_version() {
    let t = parse(&sample()).unwrap();
    assert_eq!(t.get(b"K2", 7), Some(b"b".to_vec()));
    assert_eq!(t.get(b"K2", 3), Some(b"c".to_vec()));
    assert_eq!(t.get(b"K1", 10), Some(b"a".to_vec()));
    assert_eq!(t.get(b"K2", 5), None);
    assert_eq!(t.get(b"K3", 1), None);
    assert_eq!(t.get(b"K0", 10), None);
}

#[test]
fn lookup_over_many_keys() {
    let keys: Vec<Vec<u8>> = (0..40u32).map(|i| format!("key{:03}", i).into_bytes()).collect();
    let values: Vec<Vec<u8>> = (0..40u32).map(|i| format!("value{}", i).into_bytes()).collect();
    let records: Vec<(u64, &[u8], Option<&[u8]>)> = (0..40)
        .map(|i| (100 - i as u64, keys[i].as_slice(), Some(values[i].as_slice())))
        .collect();
    let t = parse(&build_table(&records)).unwrap();
    for i in 0..40 {
        assert_eq!(t.get(&keys[i], 100 - i as u64), Some(values[i].clone()));
        assert_eq!(t.get(&keys[i], 101 - i as u64), None);
    }
}

#[test]
fn tombstone_hides_key() {
    let raw = build_table(&[(5, b"K", None), (3, b"K", Some(b"v"))]);
    let t = parse(&raw).unwrap();
    assert_eq!(t.get(b"K", 5), None);
    assert_eq!(t.get(b"K", 3), Some(b"v".to_vec()));
}

#[test]
fn sequential_scan() {
    let t = parse(&build_table(&[(9, b"A", Some(b"x")), (4, b"B", None), (2, b"C", Some(b""))])).unwrap();
    assert_eq!(t.catalog_size(), 3);
    let (s0, k0, v0) = t.nth_item(0);
    assert_eq!((s0, k0, v0), (9, Some(&b"A"[..]), Some(&b"x"[..])));
    let (s1, k1, v1) = t.nth_item(1);
    assert_eq!((s1, k1, v1), (4, Some(&b"B"[..]), None));
    let (s2, k2, v2) = t.nth_item(2);
    assert_eq!((s2, k2, v2), (2, Some(&b"C"[..]), Some(&b""[..])));
}

#[test]
fn tombstone_offsets_are_not_checked() {
    let mut catalog = Vec::new();
    ScTableCatalogItem::new(4, 0, 1, 0, 1).serialize(&mut catalog);
    ScTableCatalogItem::new(3, 500, 9, TOMBSTONE | 700, 80).serialize(&mut catalog);
    let t = parse(&assemble(&catalog, b"ab")).unwrap();
    assert_eq!(t.catalog_size(), 2);
    assert_eq!(t.nth_item(0), (4, Some(&b"a"[..]), Some(&b"a"[..])));
    assert_eq!(t.nth_item(1), (3, None, None));
    assert_eq!(t.get(b"a", 4), None);
    assert_eq!(t.get(b"z", 3), None);
}

#[test]
fn empty_table() {
    let t = parse(&assemble(&[], &[])).unwrap();
    assert_eq!(t.catalog_size(), 0);
    assert_eq!(t.get(b"", 0), None);
}

#[test]
fn rejects_truncated() {
    assert_eq!(parse(&[0u8; 10]).err(), Some(TableError::TooSmall));
    let raw = sample();
    assert_eq!(parse(&raw[..raw.len() - 1]).err(), Some(TableError::BadMagic));
}

#[test]
fn rejects_oversized() {
    let raw = vec![0u8; TABLE_MAX_SIZE + 1];
    assert_eq!(parse(&raw).err(), Some(TableError::TooLarge));
}

#[test]
fn rejects_wrong_magic() {
    let mut raw = sample();
    let n = raw.len();
    raw[n - 1] ^= 0xff;
    assert_eq!(parse(&raw).err(), Some(TableError::BadMagic));
}

#[test]
fn rejects_misaligned_catalog() {
    let raw = assemble(&[0u8; 16], &[]);
    assert_eq!(parse(&raw).err(), Some(TableError::CatalogMisaligned));
}

#[test]
fn rejects_inconsistent_sizes() {
    let mut raw = sample();
    raw[4] = raw[4].wrapping_add(1);
    assert_eq!(parse(&raw).err(), Some(TableError::SizeMismatch));
}

#[test]
fn rejects_catalog_crc_mismatch() {
    let mut raw = sample();
    raw[16] ^= 1;
    assert_eq!(parse(&raw).err(), Some(TableError::CatalogCrc));
}

#[test]
fn rejects_data_crc_mismatch() {
    let mut raw = sample();
    let n = raw.len();
    raw[n - 9] ^= 1;
    assert_eq!(parse(&raw).err(), Some(TableError::DataCrc));
}

#[test]
fn rejects_value_out_of_range() {
    let mut catalog = Vec::new();
    ScTableCatalogItem::new(1, 0, 1, 1, 5).serialize(&mut catalog);
    let raw = assemble(&catalog, b"ab");
    assert_eq!(parse(&raw).err(), Some(TableError::EntryOutOfRange));
}

#[test]
fn rejects_key_out_of_range() {
    let mut catalog = Vec::new();
    ScTableCatalogItem::new(1, 1, 2, 0, 0).serialize(&mut catalog);
    let raw = assemble(&catalog, b"ab");
    assert_eq!(parse(&raw).err(), Some(TableError::EntryOutOfRange));
}

#[test]
fn offsets_do_not_wrap() {
    let mut catalog = Vec::new();
    ScTableCatalogItem::new(1, u32::MAX, 2, 0, 0).serialize(&mut catalog);
    let raw = assemble(&catalog, b"ab");
    assert_eq!(parse(&raw).err(), Some(TableError::EntryOutOfRange));
}

#[test]
fn checksums_given_by_caller() {
    let raw = sample();
    let catalog_sum = u32::from_le_bytes([raw[8], raw[9], raw[10], raw[11]]);
    let data_sum = u32::from_le_bytes([raw[12], raw[13], raw[14], raw[15]]);
    let manager = TableCacheManager::new(3);
    let t = ScTableCache::from_raw_with_sums(&raw, manager.acquire_quota(), catalog_sum, data_sum).unwrap();
    assert_eq!(t.get(b"K2", 7), Some(b"b".to_vec()));
    let bad = ScTableCache::from_raw_with_sums(&raw, manager.acquire_quota(), catalog_sum ^ 1, data_sum);
    assert_eq!(bad.err(), Some(TableError::CatalogCrc));
    let bad = ScTableCache::from_raw_with_sums(&raw, manager.acquire_quota(), catalog_sum, data_sum ^ 1);
    assert_eq!(bad.err(), Some(TableError::DataCrc));
}

#[test]
fn error_reasons() {
    assert_eq!(TableError::BadMagic.reason(), "incorrect table magic");
    assert_eq!(TableError::TooSmall.reason(), "too small to be a table file");
    assert_eq!(TableError::EntryOutOfRange.reason(), "incorrect key/value catalog data");
}

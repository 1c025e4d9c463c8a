use scottdb::codec::{decode_fixed32, decode_fixed64, encode_fixed32, encode_fixed64, ScTableCatalogItem};

#[test]
fn it_works() {
    assert_eq!(2 + 2, 4);
}

#[test]
fn entry_round_trip() {
    let entries = [
        ScTableCatalogItem::new(0, 0, 0, 0, 0),
        ScTableCatalogItem::new(5, 1, 2, 0x8000_0003, 4),
        ScTableCatalogItem::new(u64::MAX, u32::MAX, u32::MAX, u32::MAX, u32::MAX),
        ScTableCatalogItem::new(0x0102_0304_0506_0708, 9, 10, 11, 12),
    ];
    for e in entries.iter() {
        let mut buf = Vec::new();
        e.serialize(&mut buf);
        assert_eq!(buf.len(), 24);
        assert_eq!(ScTableCatalogItem::deserialize(&buf), *e);
    }
}

#[test]
fn entry_layout() {
    let mut buf = vec![0xaa];
    ScTableCatalogItem::new(0x0102_0304_0506_0708, 1, 2, 3, 4).serialize(&mut buf);
    assert_eq!(
        buf,
        vec![0xaa, 8, 7, 6, 5, 4, 3, 2, 1, 1, 0, 0, 0, 2, 0, 0, 0, 3, 0, 0, 0, 4, 0, 0, 0]
    );
}

#[test]
fn fixed_width_integers() {
    let mut buf = Vec::new();
    encode_fixed32(0xdead_beef, &mut buf);
    assert_eq!(buf, vec![0xef, 0xbe, 0xad, 0xde]);
    assert_eq!(decode_fixed32(&buf), 0xdead_beef);
    let mut buf = Vec::new();
    encode_fixed64(0x1122_3344_5566_7788, &mut buf);
    assert_eq!(buf, vec![0x88, 0x77, 0x66, 0x55, 0x44, 0x33, 0x22, 0x11]);
    assert_eq!(decode_fixed64(&buf), 0x1122_3344_5566_7788);
}

#[test]
fn tombstone_flag() {
    assert!(ScTableCatalogItem::new(1, 0, 0, 0x8000_0000, 0).is_tombstone());
    assert!(!ScTableCatalogItem::new(1, 0, 0, 0x7fff_ffff, 0).is_tombstone());
}

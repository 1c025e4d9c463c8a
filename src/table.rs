use vstd::prelude::*;
use std::cmp::Ordering;
use vstd::slice::slice_subrange;

use crate::cache::CacheQuota;
use crate::codec::{
    decode_fixed32, decode_item, is_tombstone, le32, ScTableCatalogItem, TABLE_CATALOG_ITEM_SIZE,
};
use crate::order::{
    compare_internal, internal_lt, lemma_internal_lt_irreflexive, lemma_internal_lt_transitive,
};

verus! {

/// Bytes of the header: catalog size, data size, catalog CRC, data CRC.
pub const TABLE_HEAD_SIZE: usize = 16;

/// Bytes of the trailing magic marker.
pub const TABLE_MAGIC_SIZE: usize = 8;

/// The trailing magic marker.
pub const TABLE_MAGIC: [u8; 8] = [0x53, 0x43, 0x54, 0x41, 0x42, 0x4c, 0x45, 0x31];

/// The smallest table: a header and a trailer around empty segments.
pub const TABLE_MIN_SIZE: usize = 24;

/// The largest table accepted.
pub const TABLE_MAX_SIZE: usize = 268435456;

pub open spec fn table_magic() -> Seq<u8> {
    seq![0x53u8, 0x43u8, 0x54u8, 0x41u8, 0x42u8, 0x4cu8, 0x45u8, 0x31u8]
}

/// The IEEE CRC-32 of a byte string.
pub uninterp spec fn crc32_ieee(b: Seq<u8>) -> u32;

/// Relies on crc::crc32::checksum_ieee: the IEEE CRC-32 of the bytes, which depends
/// on the bytes alone.
#[verifier::external_body]
fn checksum_ieee(bytes: &[u8]) -> (r: u32)
    ensures
        r == crc32_ieee(bytes@),
{
    crc::crc32::checksum_ieee(bytes)
}

/// Why a table file was rejected.
#[derive(Clone, Copy, Debug, PartialEq, Eq, Structural)]
pub enum TableError {
    TooSmall,
    TooLarge,
    BadMagic,
    CatalogMisaligned,
    SizeMismatch,
    CatalogCrc,
    DataCrc,
    EntryOutOfRange,
}

impl TableError {
    /// A human-readable reason.
    pub fn reason(&self) -> (r: &'static str)
        ensures
            r@ == match self {
                TableError::TooSmall => "too small to be a table file"@,
                TableError::TooLarge => "too large to be a table file"@,
                TableError::BadMagic => "incorrect table magic"@,
                TableError::CatalogMisaligned => "catalog size is not a multiple of the entry size"@,
                TableError::SizeMismatch => "incorrect table size"@,
                TableError::CatalogCrc => "incorrect catalog crc"@,
                TableError::DataCrc => "incorrect data crc"@,
                TableError::EntryOutOfRange => "incorrect key/value catalog data"@,
            },
    {
        match self {
            TableError::TooSmall => "too small to be a table file",
            TableError::TooLarge => "too large to be a table file",
            TableError::BadMagic => "incorrect table magic",
            TableError::CatalogMisaligned => "catalog size is not a multiple of the entry size",
            TableError::SizeMismatch => "incorrect table size",
            TableError::CatalogCrc => "incorrect catalog crc",
            TableError::DataCrc => "incorrect data crc",
            TableError::EntryOutOfRange => "incorrect key/value catalog data",
        }
    }
}

pub open spec fn catalog_size(raw: Seq<u8>) -> int {
    le32(raw.subrange(0, 4))
}

pub open spec fn data_size(raw: Seq<u8>) -> int {
    le32(raw.subrange(4, 8))
}

pub open spec fn stored_catalog_crc(raw: Seq<u8>) -> int {
    le32(raw.subrange(8, 12))
}

pub open spec fn stored_data_crc(raw: Seq<u8>) -> int {
    le32(raw.subrange(12, 16))
}

pub open spec fn catalog_segment(raw: Seq<u8>) -> Seq<u8> {
    raw.subrange(16, 16 + catalog_size(raw))
}

pub open spec fn data_segment(raw: Seq<u8>) -> Seq<u8> {
    raw.subrange(16 + catalog_size(raw), 16 + catalog_size(raw) + data_size(raw))
}

/// Number of catalog entries.
pub open spec fn item_count(raw: Seq<u8>) -> int {
    catalog_size(raw) / 24
}

/// The `i`-th catalog entry.
pub open spec fn item_at(raw: Seq<u8>, i: int) -> ScTableCatalogItem {
    decode_item(catalog_segment(raw).subrange(24 * i, 24 * i + 24))
}

/// The entry's key range lies in a data segment of `len` bytes.
pub open spec fn key_in_bounds(e: ScTableCatalogItem, len: int) -> bool {
    e.key_off + e.key_len <= len
}

/// A tombstone carries no payload and passes whatever its offsets; any other entry has
/// its key and value ranges in a data segment of `len` bytes.
pub open spec fn item_in_bounds(e: ScTableCatalogItem, len: int) -> bool {
    is_tombstone(e) || (key_in_bounds(e, len) && e.value_off + e.value_len <= len)
}

/// The first failing check among length bounds, magic, catalog alignment and size consistency.
pub open spec fn layout_error(raw: Seq<u8>) -> Option<TableError> {
    if raw.len() < TABLE_MIN_SIZE {
        Some(TableError::TooSmall)
    } else if raw.len() > TABLE_MAX_SIZE {
        Some(TableError::TooLarge)
    } else if raw.subrange(raw.len() - 8, raw.len() as int) != table_magic() {
        Some(TableError::BadMagic)
    } else if catalog_size(raw) % 24 != 0 {
        Some(TableError::CatalogMisaligned)
    } else if catalog_size(raw) + data_size(raw) + TABLE_MIN_SIZE != raw.len() {
        Some(TableError::SizeMismatch)
    } else {
        None
    }
}

/// The first failing check of a table, given the checksums of its two segments.
pub open spec fn table_error_with(raw: Seq<u8>, catalog_sum: u32, data_sum: u32) -> Option<TableError> {
    if layout_error(raw) is Some {
        layout_error(raw)
    } else if catalog_sum != stored_catalog_crc(raw) {
        Some(TableError::CatalogCrc)
    } else if data_sum != stored_data_crc(raw) {
        Some(TableError::DataCrc)
    } else if exists|i: int| 0 <= i < item_count(raw) && !item_in_bounds(#[trigger] item_at(raw, i), data_size(raw)) {
        Some(TableError::EntryOutOfRange)
    } else {
        None
    }
}

/// The first failing check of a table.
pub open spec fn table_error(raw: Seq<u8>) -> Option<TableError> {
    table_error_with(raw, crc32_ieee(catalog_segment(raw)), crc32_ieee(data_segment(raw)))
}

/// The catalog entries of a table, in file order.
pub open spec fn table_items(raw: Seq<u8>) -> Seq<ScTableCatalogItem> {
    Seq::new(item_count(raw) as nat, |i: int| item_at(raw, i))
}

/// The bytes of a range of the data segment.
pub open spec fn range_of(data: Seq<u8>, off: u32, len: u32) -> Seq<u8> {
    data.subrange(off as int, off + len)
}

/// The `k`-th byte of the magic marker.
fn magic_byte(k: usize) -> (r: u8)
    requires
        k < 8,
    ensures
        r == table_magic()[k as int],
{
    let m = TABLE_MAGIC;
    assert(m@ == table_magic());
    m[k]
}

/// Checks length bounds, magic, catalog alignment and size consistency; on success gives
/// the catalog and data sizes.
pub fn check_layout(raw: &[u8]) -> (r: Result<(usize, usize), TableError>)
    ensures
        match r {
            Ok((cs, ds)) => layout_error(raw@) is None && cs == catalog_size(raw@) && ds == data_size(raw@),
            Err(e) => layout_error(raw@) == Some(e),
        },
{
    let n = raw.len();
    if n < TABLE_MIN_SIZE {
        return Err(TableError::TooSmall);
    } else if n > TABLE_MAX_SIZE {
        return Err(TableError::TooLarge);
    }
    let mut k: usize = 0;
    while k < TABLE_MAGIC_SIZE
        invariant
            n == raw@.len(),
            TABLE_MIN_SIZE <= n <= TABLE_MAX_SIZE,
            k <= 8,
            forall|j: int| 0 <= j < k ==> raw@[n - 8 + j] == table_magic()[j],
        decreases 8 - k,
    {
        if raw[n - TABLE_MAGIC_SIZE + k] != magic_byte(k) {
            assert(raw@.subrange(n - 8, n as int)[k as int] != table_magic()[k as int]);
            return Err(TableError::BadMagic);
        }
        k = k + 1;
    }
    assert(raw@.subrange(n - 8, n as int) =~= table_magic());
    let cs = decode_fixed32(slice_subrange(raw, 0, 4)) as usize;
    let ds = decode_fixed32(slice_subrange(raw, 4, 8)) as usize;
    if cs % TABLE_CATALOG_ITEM_SIZE != 0 {
        return Err(TableError::CatalogMisaligned);
    }
    if cs as u64 + ds as u64 + TABLE_MIN_SIZE as u64 != n as u64 {
        return Err(TableError::SizeMismatch);
    }
    Ok((cs, ds))
}

/// A parsed, validated table: its catalog and its own copy of the data segment. It holds
/// an admission permit for as long as it lives.
pub struct ScTableCache {
    catalog: Vec<ScTableCatalogItem>,
    data: Vec<u8>,
    quota: CacheQuota,
}

impl ScTableCache {
    #[verifier::type_invariant]
    spec fn wf(&self) -> bool {
        forall|i: int| 0 <= i < self.catalog@.len() ==> item_in_bounds(#[trigger] self.catalog@[i], self.data@.len() as int)
    }

    /// The catalog entries, in catalog order.
    pub closed spec fn items(&self) -> Seq<ScTableCatalogItem> {
        self.catalog@
    }

    /// The data segment.
    pub closed spec fn data(&self) -> Seq<u8> {
        self.data@
    }

    /// The key of the `i`-th entry.
    pub open spec fn key_at(&self, i: int) -> Seq<u8> {
        range_of(self.data(), self.items()[i].key_off, self.items()[i].key_len)
    }

    /// The value of the `i`-th entry (meaningless for a tombstone).
    pub open spec fn value_at(&self, i: int) -> Seq<u8> {
        range_of(self.data(), self.items()[i].value_off, self.items()[i].value_len)
    }

    /// Every key is readable and the catalog is strictly ascending in lookup-key order.
    pub open spec fn is_sorted(&self) -> bool {
        (forall|i: int| 0 <= i < self.items().len() ==> key_in_bounds(#[trigger] self.items()[i], self.data().len() as int))
        && forall|i: int, j: int|
            0 <= i < j < self.items().len() ==> internal_lt(
                self.key_at(i),
                self.items()[i].key_seq,
                self.key_at(j),
                self.items()[j].key_seq,
            )
    }

    /// The `i`-th entry has user key `key` and sequence `seq`.
    pub open spec fn entry_is(&self, i: int, key: Seq<u8>, seq: u64) -> bool {
        self.key_at(i) == key && self.items()[i].key_seq == seq
    }
}

impl ScTableCache {
    /// Parses and validates a table given the checksums of its catalog and data segments
    /// (as the table's own bytes give them); takes ownership of `quota` on success.
    pub fn from_raw_with_sums(raw: &[u8], quota: CacheQuota, catalog_sum: u32, data_sum: u32) -> (r: Result<ScTableCache, TableError>)
        ensures
            match r {
                Ok(t) => table_error_with(raw@, catalog_sum, data_sum) is None
                    && t.items() == table_items(raw@)
                    && t.data() == data_segment(raw@),
                Err(e) => table_error_with(raw@, catalog_sum, data_sum) == Some(e),
            },
    {
        let (cs, ds) = match check_layout(raw) {
            Ok(sizes) => sizes,
            Err(e) => return Err(e),
        };
        if catalog_sum != decode_fixed32(slice_subrange(raw, 8, 12)) {
            return Err(TableError::CatalogCrc);
        }
        if data_sum != decode_fixed32(slice_subrange(raw, 12, 16)) {
            return Err(TableError::DataCrc);
        }
        let count = cs / TABLE_CATALOG_ITEM_SIZE;
        let mut catalog: Vec<ScTableCatalogItem> = Vec::new();
        let mut i: usize = 0;
        while i < count
            invariant
                layout_error(raw@) is None,
                catalog_sum == stored_catalog_crc(raw@),
                data_sum == stored_data_crc(raw@),
                cs == catalog_size(raw@),
                ds == data_size(raw@),
                count == item_count(raw@),
                cs + ds + 24 == raw@.len(),
                i <= count,
                catalog@.len() == i,
                forall|j: int| 0 <= j < i ==> catalog@[j] == item_at(raw@, j),
                forall|j: int| 0 <= j < i ==> item_in_bounds(#[trigger] item_at(raw@, j), ds as int),
            decreases count - i,
        {
            let base = TABLE_HEAD_SIZE + i * TABLE_CATALOG_ITEM_SIZE;
            let item = ScTableCatalogItem::deserialize(slice_subrange(raw, base, base + TABLE_CATALOG_ITEM_SIZE));
            assert(catalog_segment(raw@).subrange(24 * i, 24 * i + 24) =~= raw@.subrange(base as int, base + 24));
            let key_end = item.key_off as u64 + item.key_len as u64;
            let value_end = item.value_off as u64 + item.value_len as u64;
            if !item.is_tombstone() && (key_end > ds as u64 || value_end > ds as u64) {
                assert(!item_in_bounds(item_at(raw@, i as int), data_size(raw@)));
                return Err(TableError::EntryOutOfRange);
            }
            catalog.push(item);
            i = i + 1;
        }
        assert(table_items(raw@) =~= catalog@);
        let data = vstd::slice::slice_to_vec(slice_subrange(raw, TABLE_HEAD_SIZE + cs, TABLE_HEAD_SIZE + cs + ds));
        Ok(ScTableCache { catalog, data, quota })
    }

    /// Parses and validates a raw table file; takes ownership of `quota` on success.
    /// Checks, in order: length bounds, magic, catalog alignment, size consistency,
    /// catalog CRC, data CRC, and the ranges of every entry.
    pub fn from_raw(raw: &[u8], quota: CacheQuota) -> (r: Result<ScTableCache, TableError>)
        ensures
            match r {
                Ok(t) => table_error(raw@) is None
                    && t.items() == table_items(raw@)
                    && t.data() == data_segment(raw@),
                Err(e) => table_error(raw@) == Some(e),
            },
    {
        match check_layout(raw) {
            Err(e) => Err(e),
            Ok((cs, ds)) => {
                let catalog_sum = checksum_ieee(slice_subrange(raw, TABLE_HEAD_SIZE, TABLE_HEAD_SIZE + cs));
                let data_sum = checksum_ieee(slice_subrange(raw, TABLE_HEAD_SIZE + cs, TABLE_HEAD_SIZE + cs + ds));
                ScTableCache::from_raw_with_sums(raw, quota, catalog_sum, data_sum)
            },
        }
    }
}

impl ScTableCache {
    /// Number of catalog entries.
    pub fn catalog_size(&self) -> (r: usize)
        ensures
            r == self.items().len(),
    {
        self.catalog.len()
    }

    /// The key bytes of an entry of this table.
    fn key(&self, item: &ScTableCatalogItem) -> (r: &[u8])
        requires
            item.key_off + item.key_len <= self.data().len(),
        ensures
            r@ == range_of(self.data(), item.key_off, item.key_len),
    {
        let data_len = self.data.len();
        proof { assert(item.key_off + item.key_len <= data_len); }
        let start = item.key_off as usize;
        slice_subrange(self.data.as_slice(), start, start + item.key_len as usize)
    }

    /// The value bytes of a live entry of this table.
    fn value(&self, item: &ScTableCatalogItem) -> (r: &[u8])
        requires
            item.value_off + item.value_len <= self.data().len(),
        ensures
            r@ == range_of(self.data(), item.value_off, item.value_len),
    {
        let data_len = self.data.len();
        proof { assert(item.value_off + item.value_len <= data_len); }
        let start = item.value_off as usize;
        slice_subrange(self.data.as_slice(), start, start + item.value_len as usize)
    }

    /// The `n`-th entry in catalog order: its sequence, its key (`None` for a tombstone
    /// whose key range lies outside the data), and its value (`None` for a tombstone).
    pub fn nth_item(&self, n: usize) -> (r: (u64, Option<&[u8]>, Option<&[u8]>))
        requires
            n < self.items().len(),
        ensures
            r.0 == self.items()[n as int].key_seq,
            key_in_bounds(self.items()[n as int], self.data().len() as int) ==> (r.1 matches Some(k) && k@ == self.key_at(n as int)),
            !key_in_bounds(self.items()[n as int], self.data().len() as int) ==> r.1 is None,
            is_tombstone(self.items()[n as int]) ==> r.2 is None,
            !is_tombstone(self.items()[n as int]) ==> (r.2 matches Some(v) && v@ == self.value_at(n as int)),
    {
        proof { use_type_invariant(self); }
        let item = &self.catalog[n];
        assert(item_in_bounds(self.catalog@[n as int], self.data@.len() as int));
        let key = if self.key_readable(item) { Some(self.key(item)) } else { None };
        if item.is_tombstone() {
            (item.key_seq, key, None)
        } else {
            (item.key_seq, key, Some(self.value(item)))
        }
    }

    /// Whether the key range of `item` lies in the data segment.
    fn key_readable(&self, item: &ScTableCatalogItem) -> (r: bool)
        ensures
            r == key_in_bounds(*item, self.data().len() as int),
    {
        item.key_off as u64 + item.key_len as u64 <= self.data.len() as u64
    }

    /// Looks up the entry with exactly user key `key` and sequence `seq` by binary search
    /// over the catalog in lookup-key order (user key ascending by `compare_bytes`, then
    /// sequence descending). Gives a copy of its value, or `None` when it is a tombstone
    /// or absent. The match is exact: no older or newer version is returned instead.
    pub fn get(&self, key: &[u8], seq: u64) -> (r: Option<Vec<u8>>)
        ensures
            match r {
                Some(v) => exists|i: int|
                    0 <= i < self.items().len() && #[trigger] self.entry_is(i, key@, seq)
                        && !is_tombstone(self.items()[i]) && v@ == self.value_at(i),
                None => self.is_sorted() ==> forall|i: int|
                    0 <= i < self.items().len() && #[trigger] self.entry_is(i, key@, seq)
                        ==> is_tombstone(self.items()[i]),
            },
    {
        proof { use_type_invariant(self); }
        let mut lo: usize = 0;
        let mut hi: usize = self.catalog.len();
        while lo < hi
            invariant
                hi <= self.items().len(),
                lo <= hi,
                self.is_sorted() ==> forall|i: int|
                    0 <= i < lo ==> internal_lt(self.key_at(i), self.items()[i].key_seq, key@, seq),
                self.is_sorted() ==> forall|i: int|
                    hi <= i < self.items().len() ==> internal_lt(key@, seq, self.key_at(i), self.items()[i].key_seq),
            decreases hi - lo,
        {
            proof { use_type_invariant(self); }
            let mid = lo + (hi - lo) / 2;
            let item = &self.catalog[mid];
            if !self.key_readable(item) {
                // Only a tombstone can have an unreadable key, and then the catalog is not sorted.
                return None;
            }
            let item_key = self.key(item);
            let ghost km = self.key_at(mid as int);
            let ghost sm = self.items()[mid as int].key_seq;
            match compare_internal(item_key, item.key_seq, key, seq) {
                Ordering::Less => {
                    proof {
                        if self.is_sorted() {
                            assert forall|i: int| 0 <= i <= mid implies internal_lt(self.key_at(i), self.items()[i].key_seq, key@, seq) by {
                                if i < mid {
                                    lemma_internal_lt_transitive(self.key_at(i), self.items()[i].key_seq, km, sm, key@, seq);
                                }
                            }
                        }
                    }
                    lo = mid + 1;
                },
                Ordering::Greater => {
                    proof {
                        if self.is_sorted() {
                            assert forall|i: int| mid <= i < self.items().len() implies internal_lt(key@, seq, self.key_at(i), self.items()[i].key_seq) by {
                                if i > mid {
                                    lemma_internal_lt_transitive(key@, seq, km, sm, self.key_at(i), self.items()[i].key_seq);
                                }
                            }
                        }
                    }
                    hi = mid;
                },
                Ordering::Equal => {
                    assert(self.entry_is(mid as int, key@, seq));
                    if item.is_tombstone() {
                        proof {
                            if self.is_sorted() {
                                assert forall|i: int| 0 <= i < self.items().len() && #[trigger] self.entry_is(i, key@, seq) implies is_tombstone(self.items()[i]) by {
                                    if i != mid {
                                        lemma_internal_lt_irreflexive(key@, seq);
                                    }
                                }
                            }
                        }
                        return None;
                    } else {
                        let v = self.value(item);
                        return Some(vstd::slice::slice_to_vec(v));
                    }
                },
            }
        }
        proof {
            if self.is_sorted() {
                assert forall|i: int| 0 <= i < self.items().len() && #[trigger] self.entry_is(i, key@, seq) implies is_tombstone(self.items()[i]) by {
                    lemma_internal_lt_irreflexive(key@, seq);
                }
            }
        }
        None
    }
}

/// A table is rejected when it is truncated or oversized, has a wrong magic marker, a
/// catalog size that is not a multiple of the entry width, size fields that disagree with
/// its length, a catalog or data checksum mismatch, or a non-tombstone entry whose key or
/// value range leaves the data segment; each alone is enough.
pub proof fn lemma_corruption_detected(raw: Seq<u8>)
    requires
        raw.len() < TABLE_MIN_SIZE
            || raw.len() > TABLE_MAX_SIZE
            || raw.subrange(raw.len() - 8, raw.len() as int) != table_magic()
            || catalog_size(raw) % 24 != 0
            || catalog_size(raw) + data_size(raw) + TABLE_MIN_SIZE != raw.len()
            || crc32_ieee(catalog_segment(raw)) != stored_catalog_crc(raw)
            || crc32_ieee(data_segment(raw)) != stored_data_crc(raw)
            || exists|i: int| 0 <= i < item_count(raw) && !item_in_bounds(#[trigger] item_at(raw, i), data_size(raw)),
    ensures
        table_error(raw) is Some,
{
}

} // verus!

use vstd::prelude::*;

verus! {

/// Width in bytes of one encoded catalog entry.
pub const TABLE_CATALOG_ITEM_SIZE: usize = 24;

/// High bit of `value_off`: set when the entry marks a deletion.
pub const TABLE_DELETION_BITMASK: u32 = 0x8000_0000;

/// The little-endian value of four bytes.
pub open spec fn le32(b: Seq<u8>) -> int {
    b[0] as int + 256 * (b[1] as int) + 65536 * (b[2] as int) + 16777216 * (b[3] as int)
}

/// The four little-endian bytes of `x`.
pub open spec fn le32_bytes(x: u32) -> Seq<u8> {
    seq![
        (x % 256) as u8,
        ((x / 256) % 256) as u8,
        ((x / 65536) % 256) as u8,
        ((x / 16777216) % 256) as u8,
    ]
}

/// The little-endian value of eight bytes.
pub open spec fn le64(b: Seq<u8>) -> int {
    le32(b.subrange(0, 4)) + 4294967296 * le32(b.subrange(4, 8))
}

/// The eight little-endian bytes of `x`.
pub open spec fn le64_bytes(x: u64) -> Seq<u8> {
    le32_bytes((x % 4294967296) as u32) + le32_bytes((x / 4294967296) as u32)
}

pub proof fn lemma_le32_round_trip(x: u32)
    ensures
        le32(le32_bytes(x)) == x,
{
    let b = le32_bytes(x);
    assert(b[0] as int == x % 256);
    assert(b[1] as int == (x / 256) % 256);
    assert(b[2] as int == (x / 65536) % 256);
    assert(b[3] as int == (x / 16777216) % 256);
    assert(x / 16777216 < 256);
    assert(x == x % 256 + 256 * ((x / 256) % 256) + 65536 * ((x / 65536) % 256) + 16777216 * (x / 16777216)) by (nonlinear_arith);
}

pub proof fn lemma_le64_round_trip(x: u64)
    ensures
        le64(le64_bytes(x)) == x,
{
    let lo = (x % 4294967296) as u32;
    let hi = (x / 4294967296) as u32;
    lemma_le32_round_trip(lo);
    lemma_le32_round_trip(hi);
    let b = le64_bytes(x);
    assert(b.subrange(0, 4) =~= le32_bytes(lo));
    assert(b.subrange(4, 8) =~= le32_bytes(hi));
    assert(x == x % 4294967296 + 4294967296 * (x / 4294967296)) by (nonlinear_arith);
}

/// Reads a little-endian `u32` from exactly four bytes.
pub fn decode_fixed32(b: &[u8]) -> (r: u32)
    requires
        b@.len() == 4,
    ensures
        r as int == le32(b@),
{
    b[0] as u32 + (b[1] as u32) * 256 + (b[2] as u32) * 65536 + (b[3] as u32) * 16777216
}

/// Reads a little-endian `u64` from exactly eight bytes.
pub fn decode_fixed64(b: &[u8]) -> (r: u64)
    requires
        b@.len() == 8,
    ensures
        r as int == le64(b@),
{
    let lo = b[0] as u64 + (b[1] as u64) * 256 + (b[2] as u64) * 65536 + (b[3] as u64) * 16777216;
    let hi = b[4] as u64 + (b[5] as u64) * 256 + (b[6] as u64) * 65536 + (b[7] as u64) * 16777216;
    assert(hi <= 4294967295);
    assert(hi * 4294967296 <= 4294967295 * 4294967296) by (nonlinear_arith)
        requires hi <= 4294967295;
    lo + hi * 4294967296
}

/// Appends the four little-endian bytes of `x` to `dest`.
pub fn encode_fixed32(x: u32, dest: &mut Vec<u8>)
    ensures
        final(dest)@ == old(dest)@ + le32_bytes(x),
{
    dest.push((x % 256) as u8);
    dest.push(((x / 256) % 256) as u8);
    dest.push(((x / 65536) % 256) as u8);
    dest.push(((x / 16777216) % 256) as u8);
    assert(dest@ =~= old(dest)@ + le32_bytes(x));
}

/// Appends the eight little-endian bytes of `x` to `dest`.
pub fn encode_fixed64(x: u64, dest: &mut Vec<u8>)
    ensures
        final(dest)@ == old(dest)@ + le64_bytes(x),
{
    encode_fixed32((x % 4294967296) as u32, dest);
    encode_fixed32((x / 4294967296) as u32, dest);
    assert(dest@ =~= old(dest)@ + le64_bytes(x));
}

/// One catalog record: a sequence number and the key / value ranges in the data segment.
#[derive(Clone, Copy, Debug, PartialEq, Eq, Structural)]
pub struct ScTableCatalogItem {
    pub key_seq: u64,
    pub key_off: u32,
    pub key_len: u32,
    pub value_off: u32,
    pub value_len: u32,
}

/// The 24 bytes of an entry: sequence, key offset, key length, value offset, value length.
pub open spec fn encode_item(e: ScTableCatalogItem) -> Seq<u8> {
    le64_bytes(e.key_seq) + le32_bytes(e.key_off) + le32_bytes(e.key_len) + le32_bytes(e.value_off)
        + le32_bytes(e.value_len)
}

/// The entry that 24 bytes encode.
pub open spec fn decode_item(b: Seq<u8>) -> ScTableCatalogItem {
    ScTableCatalogItem {
        key_seq: le64(b.subrange(0, 8)) as u64,
        key_off: le32(b.subrange(8, 12)) as u32,
        key_len: le32(b.subrange(12, 16)) as u32,
        value_off: le32(b.subrange(16, 20)) as u32,
        value_len: le32(b.subrange(20, 24)) as u32,
    }
}

/// Whether the entry marks a deletion.
pub open spec fn is_tombstone(e: ScTableCatalogItem) -> bool {
    e.value_off & TABLE_DELETION_BITMASK != 0
}

impl ScTableCatalogItem {
    pub fn new(key_seq: u64, key_off: u32, key_len: u32, value_off: u32, value_len: u32) -> (r: Self)
        ensures
            r == (ScTableCatalogItem { key_seq, key_off, key_len, value_off, value_len }),
    {
        ScTableCatalogItem { key_seq, key_off, key_len, value_off, value_len }
    }

    /// Appends the 24-byte encoding of this entry to `dest`.
    pub fn serialize(&self, dest: &mut Vec<u8>)
        ensures
            final(dest)@ == old(dest)@ + encode_item(*self),
    {
        encode_fixed64(self.key_seq, dest);
        encode_fixed32(self.key_off, dest);
        encode_fixed32(self.key_len, dest);
        encode_fixed32(self.value_off, dest);
        encode_fixed32(self.value_len, dest);
        assert(dest@ =~= old(dest)@ + encode_item(*self));
    }

    /// Decodes an entry from exactly 24 bytes.
    pub fn deserialize(from: &[u8]) -> (r: Self)
        requires
            from@.len() == TABLE_CATALOG_ITEM_SIZE,
        ensures
            r == decode_item(from@),
    {
        ScTableCatalogItem {
            key_seq: decode_fixed64(vstd::slice::slice_subrange(from, 0, 8)),
            key_off: decode_fixed32(vstd::slice::slice_subrange(from, 8, 12)),
            key_len: decode_fixed32(vstd::slice::slice_subrange(from, 12, 16)),
            value_off: decode_fixed32(vstd::slice::slice_subrange(from, 16, 20)),
            value_len: decode_fixed32(vstd::slice::slice_subrange(from, 20, 24)),
        }
    }

    /// Whether this entry marks a deletion.
    pub fn is_tombstone(&self) -> (r: bool)
        ensures
            r == is_tombstone(*self),
    {
        self.value_off & TABLE_DELETION_BITMASK != 0
    }
}

/// Decoding the encoding of an entry gives back the same entry.
pub proof fn lemma_item_round_trip(e: ScTableCatalogItem)
    ensures
        decode_item(encode_item(e)) == e,
{
    let b = encode_item(e);
    lemma_le64_round_trip(e.key_seq);
    lemma_le32_round_trip(e.key_off);
    lemma_le32_round_trip(e.key_len);
    lemma_le32_round_trip(e.value_off);
    lemma_le32_round_trip(e.value_len);
    assert(b.subrange(0, 8) =~= le64_bytes(e.key_seq));
    assert(b.subrange(8, 12) =~= le32_bytes(e.key_off));
    assert(b.subrange(12, 16) =~= le32_bytes(e.key_len));
    assert(b.subrange(16, 20) =~= le32_bytes(e.value_off));
    assert(b.subrange(20, 24) =~= le32_bytes(e.value_len));
}

} // verus!

use vstd::prelude::*;
use std::cmp::Ordering;

verus! {

/// Byte-wise lexicographic "less than"; a proper prefix sorts first.
pub open spec fn bytes_lt(a: Seq<u8>, b: Seq<u8>) -> bool
    decreases a.len(),
{
    if a.len() == 0 {
        b.len() > 0
    } else if b.len() == 0 {
        false
    } else if a[0] != b[0] {
        a[0] < b[0]
    } else {
        bytes_lt(a.drop_first(), b.drop_first())
    }
}

/// The order of lookup keys: user key ascending, then sequence descending,
/// so that the newest version of a key comes first.
pub open spec fn internal_lt(ka: Seq<u8>, sa: u64, kb: Seq<u8>, sb: u64) -> bool {
    bytes_lt(ka, kb) || (ka == kb && sa > sb)
}

pub proof fn lemma_bytes_lt_irreflexive(a: Seq<u8>)
    ensures
        !bytes_lt(a, a),
    decreases a.len(),
{
    if a.len() > 0 {
        lemma_bytes_lt_irreflexive(a.drop_first());
    }
}

pub proof fn lemma_bytes_lt_transitive(a: Seq<u8>, b: Seq<u8>, c: Seq<u8>)
    requires
        bytes_lt(a, b),
        bytes_lt(b, c),
    ensures
        bytes_lt(a, c),
    decreases a.len(),
{
    if a.len() > 0 && b.len() > 0 && c.len() > 0 && a[0] == b[0] && b[0] == c[0] {
        lemma_bytes_lt_transitive(a.drop_first(), b.drop_first(), c.drop_first());
    }
}

pub proof fn lemma_internal_lt_transitive(ka: Seq<u8>, sa: u64, kb: Seq<u8>, sb: u64, kc: Seq<u8>, sc: u64)
    requires
        internal_lt(ka, sa, kb, sb),
        internal_lt(kb, sb, kc, sc),
    ensures
        internal_lt(ka, sa, kc, sc),
{
    if bytes_lt(ka, kb) && bytes_lt(kb, kc) {
        lemma_bytes_lt_transitive(ka, kb, kc);
    }
}

pub proof fn lemma_internal_lt_irreflexive(k: Seq<u8>, s: u64)
    ensures
        !internal_lt(k, s, k, s),
{
    lemma_bytes_lt_irreflexive(k);
}

proof fn lemma_bytes_lt_skip(a: Seq<u8>, b: Seq<u8>, i: int)
    requires
        0 <= i <= a.len(),
        i <= b.len(),
        a.subrange(0, i) == b.subrange(0, i),
    ensures
        bytes_lt(a, b) == bytes_lt(a.subrange(i, a.len() as int), b.subrange(i, b.len() as int)),
    decreases i,
{
    if i > 0 {
        assert(a[0] == a.subrange(0, i)[0]);
        assert(b[0] == b.subrange(0, i)[0]);
        let a1 = a.drop_first();
        let b1 = b.drop_first();
        assert(a1.subrange(0, i - 1) =~= a.subrange(0, i).drop_first());
        assert(b1.subrange(0, i - 1) =~= b.subrange(0, i).drop_first());
        lemma_bytes_lt_skip(a1, b1, i - 1);
        assert(a1.subrange(i - 1, a1.len() as int) =~= a.subrange(i, a.len() as int));
        assert(b1.subrange(i - 1, b1.len() as int) =~= b.subrange(i, b.len() as int));
    } else {
        assert(a.subrange(0, a.len() as int) =~= a);
        assert(b.subrange(0, b.len() as int) =~= b);
    }
}

/// Compares two byte strings in lexicographic order.
pub fn compare_bytes(lhs: &[u8], rhs: &[u8]) -> (r: Ordering)
    ensures
        (r == Ordering::Less) == bytes_lt(lhs@, rhs@),
        (r == Ordering::Equal) == (lhs@ == rhs@),
        (r == Ordering::Greater) == bytes_lt(rhs@, lhs@),
{
    let n: usize = if lhs.len() < rhs.len() { lhs.len() } else { rhs.len() };
    let mut i: usize = 0;
    while i < n
        invariant
            n <= lhs@.len(),
            n <= rhs@.len(),
            n == lhs@.len() || n == rhs@.len(),
            i <= n,
            lhs@.subrange(0, i as int) == rhs@.subrange(0, i as int),
        decreases n - i,
    {
        if lhs[i] != rhs[i] {
            proof {
                lemma_bytes_lt_skip(lhs@, rhs@, i as int);
                lemma_bytes_lt_skip(rhs@, lhs@, i as int);
            }
            if lhs[i] < rhs[i] {
                return Ordering::Less;
            } else {
                return Ordering::Greater;
            }
        }
        assert(lhs@.subrange(0, i + 1) =~= lhs@.subrange(0, i as int).push(lhs@[i as int]));
        assert(rhs@.subrange(0, i + 1) =~= rhs@.subrange(0, i as int).push(rhs@[i as int]));
        i = i + 1;
    }
    proof {
        lemma_bytes_lt_skip(lhs@, rhs@, i as int);
        lemma_bytes_lt_skip(rhs@, lhs@, i as int);
    }
    if lhs.len() < rhs.len() {
        Ordering::Less
    } else if lhs.len() > rhs.len() {
        Ordering::Greater
    } else {
        assert(lhs@ =~= lhs@.subrange(0, i as int));
        assert(rhs@ =~= rhs@.subrange(0, i as int));
        Ordering::Equal
    }
}

/// Compares two lookup keys: user key by `compare_bytes`, then the higher sequence first.
pub fn compare_internal(ka: &[u8], sa: u64, kb: &[u8], sb: u64) -> (r: Ordering)
    ensures
        (r == Ordering::Less) == internal_lt(ka@, sa, kb@, sb),
        (r == Ordering::Equal) == (ka@ == kb@ && sa == sb),
        (r == Ordering::Greater) == internal_lt(kb@, sb, ka@, sa),
{
    match compare_bytes(ka, kb) {
        Ordering::Less => Ordering::Less,
        Ordering::Greater => Ordering::Greater,
        Ordering::Equal => {
            proof { lemma_bytes_lt_irreflexive(ka@); }
            if sa > sb {
                Ordering::Less
            } else if sa < sb {
                Ordering::Greater
            } else {
                Ordering::Equal
            }
        },
    }
}

} // verus!

use vstd::prelude::*;
use std::cmp::Ordering;
use vstd::arithmetic::power::{lemma_pow_increases, pow};

pub mod codec;
pub mod order;
pub mod cache;
pub mod table;

use crate::cache::{semaphore_slots, TableCacheManager, MAX_CACHE_COUNT};
use crate::order::{bytes_lt, compare_bytes};

verus! {

/// A total order on user keys.
pub trait Comparator {
    fn compare(lhs: &[u8], rhs: &[u8]) -> Ordering;
}

/// Byte-wise lexicographic order, the order lookups use.
pub struct DefaultComparator();

impl DefaultComparator {
    /// Byte-wise lexicographic comparison.
    pub fn compare_lexicographic(lhs: &[u8], rhs: &[u8]) -> (r: Ordering)
        ensures
            (r == Ordering::Less) == bytes_lt(lhs@, rhs@),
            (r == Ordering::Equal) == (lhs@ == rhs@),
            (r == Ordering::Greater) == bytes_lt(rhs@, lhs@),
    {
        compare_bytes(lhs, rhs)
    }
}

impl Comparator for DefaultComparator {
    fn compare(lhs: &[u8], rhs: &[u8]) -> (r: Ordering)
        ensures
            (r == Ordering::Less) == bytes_lt(lhs@, rhs@),
            (r == Ordering::Equal) == (lhs@ == rhs@),
            (r == Ordering::Greater) == bytes_lt(rhs@, lhs@),
    {
        compare_bytes(lhs, rhs)
    }
}

/// Engine configuration. `cache_count` bounds both the resident-table map and the
/// admission permits.
pub struct Options {
    pub db_name: String,
    pub cache_count: usize,
    pub level0_size: usize,
    pub size_factor: usize,
    pub max_open_files: usize,
    pub table_size: usize,
    pub key_size_max: usize,
    pub value_size_max: usize,
}

/// The size budget of a level: `level0_size * size_factor ^ level`.
pub open spec fn level_size_of(level0_size: usize, size_factor: usize, level: usize) -> int {
    level0_size * pow(size_factor as int, level as nat)
}

impl Options {
    pub fn new(
        db_name: &str,
        cache_count: usize,
        level0_size: usize,
        size_factor: usize,
        max_open_files: usize,
        table_size: usize,
        key_size_max: usize,
        value_size_max: usize,
    ) -> (r: Self)
        ensures
            r.db_name@ == db_name@,
            r.cache_count == cache_count,
            r.level0_size == level0_size,
            r.size_factor == size_factor,
            r.max_open_files == max_open_files,
            r.table_size == table_size,
            r.key_size_max == key_size_max,
            r.value_size_max == value_size_max,
    {
        Options {
            db_name: db_name.to_owned(),
            cache_count,
            level0_size,
            size_factor,
            max_open_files,
            table_size,
            key_size_max,
            value_size_max,
        }
    }

    /// The size budget of `level`, or `None` when it does not fit in a `usize`.
    pub fn level_size(&self, level: usize) -> (r: Option<usize>)
        ensures
            match r {
                Some(v) => v == level_size_of(self.level0_size, self.size_factor, level),
                None => level_size_of(self.level0_size, self.size_factor, level) > usize::MAX,
            },
    {
        let f = self.size_factor;
        if self.level0_size == 0 {
            return Some(0);
        }
        let mut acc: usize = self.level0_size;
        let mut i: usize = 0;
        proof { vstd::arithmetic::power::lemma_pow0(f as int); }
        while i < level
            invariant
                i <= level,
                self.level0_size > 0,
                f == self.size_factor,
                acc == level_size_of(self.level0_size, f, i),
            decreases level - i,
        {
            proof { vstd::arithmetic::power::lemma_pow_adds(f as int, i as nat, 1); vstd::arithmetic::power::lemma_pow1(f as int); }
            match acc.checked_mul(f) {
                Some(next) => {
                    proof {
                        assert(next == self.level0_size * (pow(f as int, i as nat) * f)) by (nonlinear_arith)
                            requires next == acc * f, acc == self.level0_size * pow(f as int, i as nat);
                    }
                    acc = next;
                },
                None => {
                    proof {
                        assert(f >= 2) by (nonlinear_arith)
                            requires acc * f > usize::MAX, acc <= usize::MAX;
                        lemma_pow_increases(f as nat, (i + 1) as nat, level as nat);
                        let a = pow(f as int, (i + 1) as nat);
                        let b = pow(f as int, level as nat);
                        assert(self.level0_size * a <= self.level0_size * b) by (nonlinear_arith)
                            requires a <= b, self.level0_size > 0;
                        assert(self.level0_size * a == acc * f) by (nonlinear_arith)
                            requires a == pow(f as int, i as nat) * f, acc == self.level0_size * pow(f as int, i as nat);
                    }
                    return None;
                },
            }
            i = i + 1;
        }
        Some(acc)
    }
}

/// The read-path core of a database: its configuration, the global sequence counter,
/// and the manager of resident tables, sized by `cache_count`. Its methods take
/// `&mut self`, so the counter is a plain integer; callers sharing it add a lock.
pub struct ScottDB {
    options: Options,
    seq: u64,
    cache_manager: TableCacheManager,
}

impl ScottDB {
    pub closed spec fn options(&self) -> Options {
        self.options
    }

    /// The last sequence number handed out.
    pub closed spec fn seq(&self) -> u64 {
        self.seq
    }

    /// How many tables may be admitted at once.
    pub closed spec fn admission_slots(&self) -> int {
        semaphore_slots(self.cache_manager.budget())
    }

    /// Keys of the resident tables, least recently used first.
    pub closed spec fn cache_order(&self) -> Seq<u64> {
        self.cache_manager.order()
    }

    /// How many tables may be resident.
    pub closed spec fn cache_capacity(&self) -> nat {
        self.cache_manager.capacity()
    }

    pub fn new(options: Options) -> (r: Self)
        requires
            options.cache_count <= MAX_CACHE_COUNT,
        ensures
            r.options() == options,
            r.cache_order() == Seq::<u64>::empty(),
            r.cache_capacity() == options.cache_count,
            r.admission_slots() == options.cache_count,
            r.seq() == 0,
    {
        let cache_count = options.cache_count;
        ScottDB { options, seq: 0, cache_manager: TableCacheManager::new(cache_count) }
    }
}

} // verus!

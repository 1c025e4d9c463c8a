use vstd::prelude::*;
use std::sync::Arc;
use std_semaphore::Semaphore;
use lru::LruCache;

use crate::table::ScTableCache;

verus! {

/// std_semaphore's counting semaphore, carried opaquely.
#[verifier::external_type_specification]
#[verifier::external_body]
pub struct ExSemaphore(Semaphore);

/// The count a semaphore was made with.
pub uninterp spec fn semaphore_slots(s: Semaphore) -> int;

/// Relies on std_semaphore::Semaphore::new: a counting semaphore holding `count` slots.
#[verifier::external_body]
fn semaphore_new(count: isize) -> (r: Semaphore)
    ensures
        semaphore_slots(r) == count,
{
    Semaphore::new(count)
}

/// Relies on std_semaphore::Semaphore::acquire: blocks until a slot is free, then takes it.
#[verifier::external_body]
fn semaphore_acquire(sem: &Semaphore) {
    sem.acquire()
}

/// Relies on std_semaphore::Semaphore::release: gives one slot back and wakes one waiter.
/// Its lock is never held across a panic, so it is never poisoned, and the count only
/// goes back up to its initial value, so the increment cannot overflow: it does not unwind.
#[verifier::external_body]
fn semaphore_release(sem: &Semaphore)
    opens_invariants none
    no_unwind
{
    sem.release()
}

/// One consumed slot of the admission budget. It holds a shared reference to the
/// budget it came from, so the budget outlives every permit, and it gives the slot
/// back exactly once, when dropped.
pub struct CacheQuota {
    sem: Arc<Semaphore>,
}

impl CacheQuota {
    /// The budget this permit was taken from.
    pub closed spec fn budget(&self) -> Semaphore {
        *self.sem
    }
}

impl Drop for CacheQuota {
    fn drop(&mut self)
        opens_invariants none
        no_unwind
    {
        semaphore_release(&self.sem)
    }
}

/// lru's map, carried opaquely; what it holds is named by `lru_order` and `lru_capacity`.
#[verifier::external_type_specification]
#[verifier::external_body]
#[verifier::reject_recursive_types(K)]
#[verifier::reject_recursive_types(V)]
#[verifier::reject_recursive_types(S)]
pub struct ExLruCache<K, V, S>(LruCache<K, V, S>);

/// The keys an LRU map holds, least recently used first.
pub uninterp spec fn lru_order(c: LruCache<u64, Arc<ScTableCache>>) -> Seq<u64>;

/// The capacity an LRU map was made with.
pub uninterp spec fn lru_capacity(c: LruCache<u64, Arc<ScTableCache>>) -> nat;

/// The table an LRU map holds under each key.
pub uninterp spec fn lru_tables(c: LruCache<u64, Arc<ScTableCache>>) -> Map<u64, ScTableCache>;

/// The tables after putting `v` under `k` into a map with key order `order` and capacity
/// `cap`: a present key gets `v`; a new key is added, first dropping the least recently
/// used key when the map is full; a map of capacity 0 is left as it is.
pub open spec fn tables_after_put(
    tables: Map<u64, ScTableCache>,
    order: Seq<u64>,
    cap: nat,
    k: u64,
    v: ScTableCache,
) -> Map<u64, ScTableCache> {
    if order.contains(k) {
        tables.insert(k, v)
    } else if cap == 0 {
        tables
    } else if order.len() == cap {
        tables.remove(order[0]).insert(k, v)
    } else {
        tables.insert(k, v)
    }
}

/// `order` after `k` is used: moved (or added) to the most recent end.
pub open spec fn touched(order: Seq<u64>, k: u64) -> Seq<u64> {
    order.remove_value(k).push(k)
}

/// `order` after putting `k` into a map of capacity `cap`: an existing key is moved to
/// the most recent end; a new key is appended, first evicting the least recently used
/// key when the map is full; a map of capacity 0 stays empty.
pub open spec fn order_after_put(order: Seq<u64>, cap: nat, k: u64) -> Seq<u64> {
    if order.contains(k) {
        touched(order, k)
    } else if cap == 0 {
        order
    } else if order.len() == cap {
        order.drop_first().push(k)
    } else {
        order.push(k)
    }
}

/// The largest slot count a manager accepts. `LruCache::new` sizes a hash map for all
/// slots up front, which panics on capacity overflow for counts near `usize::MAX`; this
/// bound is deliberately far below that point, and far above any useful cache size.
pub const MAX_CACHE_COUNT: usize = 16777216;

/// Relies on lru::LruCache::new: an empty map with capacity `cap`, its hash map
/// allocated for `cap` entries.
#[verifier::external_body]
fn lru_new(cap: usize) -> (r: LruCache<u64, Arc<ScTableCache>>)
    requires
        cap <= MAX_CACHE_COUNT,
    ensures
        lru_order(r) == Seq::<u64>::empty(),
        lru_capacity(r) == cap,
        lru_tables(r).dom() == Set::<u64>::empty(),
{
    LruCache::new(cap)
}

/// Relies on lru::LruCache::put: replaces the value of a present key and moves it to the
/// front of the recency list; otherwise inserts, evicting the least recently used entry
/// when full (nothing when the capacity is 0). Gives back the replaced value of a present key.
#[verifier::external_body]
fn lru_put(c: &mut LruCache<u64, Arc<ScTableCache>>, k: u64, v: Arc<ScTableCache>) -> (r: Option<Arc<ScTableCache>>)
    ensures
        lru_capacity(*final(c)) == lru_capacity(*old(c)),
        lru_order(*final(c)) == order_after_put(lru_order(*old(c)), lru_capacity(*old(c)), k),
        r is Some == lru_order(*old(c)).contains(k),
        lru_tables(*final(c)) == tables_after_put(lru_tables(*old(c)), lru_order(*old(c)), lru_capacity(*old(c)), k, *v),
        r matches Some(x) ==> *x == lru_tables(*old(c))[k],
{
    c.put(k, v)
}

/// Relies on lru::LruCache::get: the value of a present key, which becomes the most
/// recently used; nothing changes for an absent key.
#[verifier::external_body]
fn lru_get(c: &mut LruCache<u64, Arc<ScTableCache>>, k: u64) -> (r: Option<Arc<ScTableCache>>)
    ensures
        lru_capacity(*final(c)) == lru_capacity(*old(c)),
        lru_order(*old(c)).contains(k) ==> lru_order(*final(c)) == touched(lru_order(*old(c)), k),
        !lru_order(*old(c)).contains(k) ==> lru_order(*final(c)) == lru_order(*old(c)),
        r is Some == lru_order(*old(c)).contains(k),
        lru_tables(*final(c)) == lru_tables(*old(c)),
        r matches Some(x) ==> lru_tables(*old(c)).contains_key(k) && *x == lru_tables(*old(c))[k],
{
    c.get(&k).cloned()
}

/// A shared handle on an admission budget. Waiting for a slot through it needs no access
/// to the resident-table map, so a thread blocked here never holds up lookups or evictions.
pub struct AdmissionControl {
    sem: Arc<Semaphore>,
}

impl AdmissionControl {
    /// The budget this handle draws on.
    pub closed spec fn budget(&self) -> Semaphore {
        *self.sem
    }

    /// Blocks until an admission slot is free and takes it.
    pub fn acquire_quota(&self) -> (r: CacheQuota)
        ensures
            r.budget() == self.budget(),
    {
        semaphore_acquire(&self.sem);
        CacheQuota { sem: Arc::clone(&self.sem) }
    }
}

/// Keeps parsed tables resident, keyed by table file number, and bounds them twice with
/// one configured count: the LRU map evicts beyond it, and admission permits block beyond
/// it. The coupling is deliberate: resident tables and open table files share one budget.
///
/// Map operations take `&mut self`; a caller sharing the manager across threads guards
/// it with one lock. Permits are handed out through a shared semaphore, so releasing one
/// never needs that lock.
pub struct TableCacheManager {
    lru: LruCache<u64, Arc<ScTableCache>>,
    sem: Arc<Semaphore>,
    loading: Vec<u64>,
}

/// What a caller that wants a table should do next.
pub enum LoadStep {
    /// The table is resident: use this handle.
    Cached(Arc<ScTableCache>),
    /// Another caller is parsing it: wait for that load to finish, then ask again.
    Wait,
    /// The caller now owns the load: read, parse, then `finish_load` or `abandon_load`.
    Load,
}

/// Using a present key keeps the keys unique and their number unchanged.
proof fn lemma_touched_wf(order: Seq<u64>, k: u64)
    requires
        order.no_duplicates(),
        order.contains(k),
    ensures
        touched(order, k).no_duplicates(),
        touched(order, k).len() == order.len(),
{
    order.index_of_first_ensures(k);
    let i = order.index_of_first(k)->0;
    let rest = order.remove(i);
    assert(rest == order.remove_value(k));
    assert forall|a: int, b: int| 0 <= a < b < rest.len() implies rest[a] != rest[b] by {
        let oa = if a < i { a } else { a + 1 };
        let ob = if b < i { b } else { b + 1 };
        assert(rest[a] == order[oa]);
        assert(rest[b] == order[ob]);
    }
    assert forall|a: int| 0 <= a < rest.len() implies rest[a] != k by {
        let oa = if a < i { a } else { a + 1 };
        assert(rest[a] == order[oa]);
    }
    let t = rest.push(k);
    assert forall|a: int, b: int| 0 <= a < b < t.len() implies t[a] != t[b] by {
        if b < rest.len() {
            assert(t[a] == rest[a] && t[b] == rest[b]);
        } else {
            assert(t[a] == rest[a]);
        }
    }
}

/// Putting a key keeps the keys unique and their number within the capacity.
proof fn lemma_put_wf(order: Seq<u64>, cap: nat, k: u64)
    requires
        order.no_duplicates(),
        order.len() <= cap,
    ensures
        order_after_put(order, cap, k).no_duplicates(),
        order_after_put(order, cap, k).len() <= cap,
{
    if order.contains(k) {
        lemma_touched_wf(order, k);
    } else if cap == 0 {
    } else {
        let rest = if order.len() == cap { order.drop_first() } else { order };
        assert forall|a: int| 0 <= a < rest.len() implies rest[a] != k by {
            if order.len() == cap {
                assert(rest[a] == order[a + 1]);
            }
        }
        assert forall|a: int, b: int| 0 <= a < b < rest.len() implies rest[a] != rest[b] by {
            if order.len() == cap {
                assert(rest[a] == order[a + 1] && rest[b] == order[b + 1]);
            }
        }
        let t = rest.push(k);
        assert(t == order_after_put(order, cap, k));
        assert forall|a: int, b: int| 0 <= a < b < t.len() implies t[a] != t[b] by {
            if b < rest.len() {
                assert(t[a] == rest[a] && t[b] == rest[b]);
            } else {
                assert(t[a] == rest[a]);
            }
        }
    }
}

impl TableCacheManager {
    /// Resident keys are unique and never more than the capacity.
    pub closed spec fn wf(&self) -> bool {
        lru_order(self.lru).no_duplicates() && lru_order(self.lru).len() <= lru_capacity(self.lru)
    }

    /// Unfolds `wf`.
    pub proof fn lemma_wf(&self)
        requires
            self.wf(),
        ensures
            self.order().no_duplicates(),
            self.order().len() <= self.capacity(),
    {
    }

    /// Keys of the resident tables, least recently used first.
    pub closed spec fn order(&self) -> Seq<u64> {
        lru_order(self.lru)
    }

    /// How many tables may be resident.
    pub closed spec fn capacity(&self) -> nat {
        lru_capacity(self.lru)
    }

    /// The table resident under each key.
    pub closed spec fn tables(&self) -> Map<u64, ScTableCache> {
        lru_tables(self.lru)
    }

    /// The admission budget.
    pub closed spec fn budget(&self) -> Semaphore {
        *self.sem
    }

    /// Keys of the tables some caller is parsing now.
    pub closed spec fn loading(&self) -> Seq<u64> {
        self.loading@
    }

    /// Whether `table_file` is being parsed now.
    fn is_loading(&self, table_file: u64) -> (r: bool)
        ensures
            r == self.loading().contains(table_file),
    {
        let mut i: usize = 0;
        while i < self.loading.len()
            invariant
                i <= self.loading@.len(),
                forall|j: int| 0 <= j < i ==> self.loading@[j] != table_file,
            decreases self.loading@.len() - i,
        {
            if self.loading[i] == table_file {
                return true;
            }
            i = i + 1;
        }
        false
    }

    /// Decides how a caller gets `table_file`: from the map (which marks it most recently
    /// used), by waiting for a load already under way, or by loading it itself, in which
    /// case the key is marked as loading so that concurrent misses do not parse it twice.
    pub fn begin_load(&mut self, table_file: u64) -> (r: LoadStep)
        requires
            old(self).wf(),
        ensures
            final(self).wf(),
            final(self).capacity() == old(self).capacity(),
            final(self).tables() == old(self).tables(),
            final(self).budget() == old(self).budget(),
            old(self).order().contains(table_file) ==> r is Cached
                && old(self).tables().contains_key(table_file)
                && *r->Cached_0 == old(self).tables()[table_file]
                && final(self).order() == touched(old(self).order(), table_file)
                && final(self).loading() == old(self).loading(),
            !old(self).order().contains(table_file) && old(self).loading().contains(table_file) ==> r is Wait
                && final(self).order() == old(self).order()
                && final(self).loading() == old(self).loading(),
            !old(self).order().contains(table_file) && !old(self).loading().contains(table_file) ==> r is Load
                && final(self).order() == old(self).order()
                && final(self).loading() == old(self).loading().push(table_file),
    {
        match self.get_cache(table_file) {
            Some(table) => LoadStep::Cached(table),
            None => {
                if self.is_loading(table_file) {
                    LoadStep::Wait
                } else {
                    self.loading.push(table_file);
                    LoadStep::Load
                }
            },
        }
    }

    /// Drops the loading mark of `table_file`.
    fn clear_loading(&mut self, table_file: u64)
        ensures
            final(self).lru == old(self).lru,
            final(self).sem == old(self).sem,
            forall|x: u64| final(self).loading().contains(x) == (old(self).loading().contains(x) && x != table_file),
    {
        let mut kept: Vec<u64> = Vec::new();
        let mut i: usize = 0;
        while i < self.loading.len()
            invariant
                i <= self.loading@.len(),
                forall|x: u64| kept@.contains(x) == (exists|j: int| 0 <= j < i && self.loading@[j] == x && x != table_file),
            decreases self.loading@.len() - i,
        {
            let x = self.loading[i];
            let ghost prev = kept@;
            if x != table_file {
                kept.push(x);
            }
            proof {
                assert forall|y: u64| kept@.contains(y) == (exists|j: int| 0 <= j < i + 1 && self.loading@[j] == y && y != table_file) by {
                    if kept@.contains(y) {
                        let k = choose|k: int| 0 <= k < kept@.len() && kept@[k] == y;
                        if k < prev.len() {
                            assert(prev[k] == y);
                            assert(prev.contains(y));
                        } else {
                            assert(self.loading@[i as int] == y);
                        }
                    }
                    if exists|j: int| 0 <= j < i + 1 && self.loading@[j] == y && y != table_file {
                        let j = choose|j: int| 0 <= j < i + 1 && self.loading@[j] == y && y != table_file;
                        if j == i {
                            assert(kept@[kept@.len() - 1] == y);
                        } else {
                            assert(prev.contains(y));
                            let k = choose|k: int| 0 <= k < prev.len() && prev[k] == y;
                            assert(kept@[k] == y);
                        }
                    }
                }
            }
            i = i + 1;
        }
        self.loading = kept;
    }

    /// Ends the load of `table_file` that `begin_load` handed out: the table becomes
    /// resident as by `add_cache`, and the key is no longer marked as loading.
    pub fn finish_load(&mut self, table_file: u64, table_cache: ScTableCache) -> (r: Arc<ScTableCache>)
        requires
            old(self).wf(),
        ensures
            *r == table_cache,
            final(self).wf(),
            final(self).capacity() == old(self).capacity(),
            final(self).order() == order_after_put(old(self).order(), old(self).capacity(), table_file),
            final(self).tables() == tables_after_put(old(self).tables(), old(self).order(), old(self).capacity(), table_file, table_cache),
            final(self).budget() == old(self).budget(),
            forall|x: u64| final(self).loading().contains(x) == (old(self).loading().contains(x) && x != table_file),
    {
        self.clear_loading(table_file);
        self.add_cache(table_file, table_cache)
    }

    /// Gives up the load of `table_file` (its bytes could not be read or parsed), so that
    /// a waiting caller may try it.
    pub fn abandon_load(&mut self, table_file: u64)
        requires
            old(self).wf(),
        ensures
            final(self).wf(),
            final(self).capacity() == old(self).capacity(),
            final(self).order() == old(self).order(),
            final(self).tables() == old(self).tables(),
            final(self).budget() == old(self).budget(),
            forall|x: u64| final(self).loading().contains(x) == (old(self).loading().contains(x) && x != table_file),
    {
        self.clear_loading(table_file);
    }

    pub fn new(cache_count: usize) -> (r: Self)
        requires
            cache_count <= MAX_CACHE_COUNT,
        ensures
            r.wf(),
            r.order() == Seq::<u64>::empty(),
            r.capacity() == cache_count,
            r.tables().dom() == Set::<u64>::empty(),
            semaphore_slots(r.budget()) == cache_count,
            r.loading() == Seq::<u64>::empty(),
    {
        TableCacheManager {
            lru: lru_new(cache_count),
            sem: Arc::new(semaphore_new(cache_count as isize)),
            loading: Vec::new(),
        }
    }

    /// Blocks until an admission slot is free and takes it.
    pub fn acquire_quota(&self) -> (r: CacheQuota)
        ensures
            r.budget() == self.budget(),
    {
        semaphore_acquire(&self.sem);
        CacheQuota { sem: Arc::clone(&self.sem) }
    }

    /// A handle on this manager's admission budget, usable without access to the map.
    pub fn admission(&self) -> (r: AdmissionControl)
        ensures
            r.budget() == self.budget(),
    {
        AdmissionControl { sem: Arc::clone(&self.sem) }
    }

    /// Makes `table_cache` resident under `table_file` as the most recently used table,
    /// evicting the least recently used one when the map is full, and gives back a shared
    /// handle to it.
    pub fn add_cache(&mut self, table_file: u64, table_cache: ScTableCache) -> (r: Arc<ScTableCache>)
        requires
            old(self).wf(),
        ensures
            *r == table_cache,
            final(self).capacity() == old(self).capacity(),
            final(self).order() == order_after_put(old(self).order(), old(self).capacity(), table_file),
            final(self).tables() == tables_after_put(old(self).tables(), old(self).order(), old(self).capacity(), table_file, table_cache),
            final(self).budget() == old(self).budget(),
            final(self).loading() == old(self).loading(),
            final(self).wf(),
    {
        proof { lemma_put_wf(lru_order(self.lru), lru_capacity(self.lru), table_file); }
        let ret = Arc::new(table_cache);
        let _replaced = lru_put(&mut self.lru, table_file, Arc::clone(&ret));
        ret
    }

    /// The resident table under `table_file`, if any, which becomes the most recently used.
    pub fn get_cache(&mut self, table_file: u64) -> (r: Option<Arc<ScTableCache>>)
        requires
            old(self).wf(),
        ensures
            r is Some == old(self).order().contains(table_file),
            final(self).capacity() == old(self).capacity(),
            old(self).order().contains(table_file) ==> final(self).order() == touched(old(self).order(), table_file),
            !old(self).order().contains(table_file) ==> final(self).order() == old(self).order(),
            r matches Some(t) ==> old(self).tables().contains_key(table_file) && *t == old(self).tables()[table_file],
            final(self).tables() == old(self).tables(),
            final(self).budget() == old(self).budget(),
            final(self).loading() == old(self).loading(),
            final(self).wf(),
    {
        proof {
            if lru_order(self.lru).contains(table_file) {
                lemma_touched_wf(lru_order(self.lru), table_file);
            }
        }
        lru_get(&mut self.lru, table_file)
    }
}

/// Putting a new key into a full map evicts exactly the least recently used key: the
/// map keeps its size, holds the new key, and no longer holds the evicted one.
pub proof fn lemma_put_evicts_least_recent(order: Seq<u64>, cap: nat, k: u64)
    requires
        order.no_duplicates(),
        !order.contains(k),
        cap > 0,
        order.len() == cap,
    ensures
        order_after_put(order, cap, k).len() == cap,
        order_after_put(order, cap, k).contains(k),
        !order_after_put(order, cap, k).contains(order[0]),
        forall|i: int| 1 <= i < order.len() ==> order_after_put(order, cap, k).contains(#[trigger] order[i]),
{
    let after = order_after_put(order, cap, k);
    assert(after =~= order.drop_first().push(k));
    assert(after[after.len() - 1] == k);
    assert forall|i: int| 1 <= i < order.len() implies after.contains(#[trigger] order[i]) by {
        assert(after[i - 1] == order[i]);
    }
    if after.contains(order[0]) {
        let j = choose|j: int| 0 <= j < after.len() && after[j] == order[0];
        if j < after.len() - 1 {
            assert(order[j + 1] == order[0]);
        }
    }
}

} // verus!

//! States and keys of the calculation cache.

use std::collections::hash_map::DefaultHasher;
use std::hash::{Hash, Hasher};
use vstd::prelude::*;
use vstd::std_specs::hash::DefaultHasherAdditionalSpecFns;
use crate::dates::in_range;
use crate::project_management::advanced_dependencies::{AdvancedDependency, DependencyType, LagType};
use crate::project_management::dependency_calculation_engine::{CalculationConfig, CalculationResult};
use crate::project_management::advanced_dependencies::now_millis;
use crate::errors::DomainError;
use crate::text::{lower_hex, str_eq, u64_to_lower_hex};

verus! {

/// The state of a cached item.
#[derive(Debug, Clone, Copy, PartialEq, Eq, Structural)]
pub enum CacheItemStatus {
    Valid,
    Expired,
    Invalid,
    Calculating,
}

/// An operation on the cache.
#[derive(Debug, Clone, Copy, PartialEq, Eq, Structural)]
pub enum CacheOperation {
    Read,
    Write,
    Invalidate,
    Clear,
}

/// The most whole days that a `chrono::Duration` can hold: it holds up to `i64::MAX`
/// milliseconds.
pub const MAX_DURATION_DAYS: i64 = 106_751_991_167i64;

/// Name for the writes that feeding, in this order, the `chrono::NaiveDate` with day
/// number `start_day`, the `chrono::Duration` of `default_days` whole days, the flag
/// and the hours to a hasher through their `Hash` makes.
pub uninterp spec fn config_writes(start_day: i32, default_days: i64, working_days_only: bool, hours: u8) -> Seq<Seq<u8>>;

/// Feeds the hashed fields of a calculation configuration to a hasher, as `chrono`'s
/// and `std`'s `Hash` do. The writes this makes are named; they depend on the four
/// values alone.
#[verifier::external_body]
fn hash_config_fields(h: &mut DefaultHasher, start_day: i32, default_days: i64, working_days_only: bool, hours: u8)
    requires
        in_range(start_day as int),
        -MAX_DURATION_DAYS <= default_days <= MAX_DURATION_DAYS,
    ensures
        final(h)@ == old(h)@ + config_writes(start_day, default_days, working_days_only, hours),
{
    chrono::NaiveDate::from_num_days_from_ce_opt(start_day).unwrap().hash(h);
    chrono::Duration::days(default_days).hash(h);
    working_days_only.hash(h);
    hours.hash(h);
}

/// Name for the writes that feeding a dependency's identifier, kind and lag to a
/// hasher through their `Hash` makes.
pub uninterp spec fn dependency_writes(id: Seq<char>, kind: DependencyType, lag: LagType) -> Seq<Seq<u8>>;

/// Feeds a dependency's identifier, kind and lag, in this order, to a hasher through
/// their `Hash`. The writes this makes are named; they depend on the three alone.
#[verifier::external_body]
fn hash_dependency(h: &mut DefaultHasher, d: &AdvancedDependency)
    ensures
        final(h)@ == old(h)@ + dependency_writes(d.id@, d.dependency_type, d.lag),
{
    d.id.hash(h);
    d.dependency_type.hash(h);
    d.lag.hash(h);
}

/// The writes that hashing a list of dependencies makes, in order.
pub open spec fn writes_of(deps: Seq<AdvancedDependency>) -> Seq<Seq<u8>>
    decreases deps.len(),
{
    if deps.len() == 0 {
        Seq::empty()
    } else {
        writes_of(deps.drop_last()) + dependency_writes(deps.last().id@, deps.last().dependency_type, deps.last().lag)
    }
}

/// The key of a cached calculation.
#[derive(Debug, PartialEq, Eq, Hash)]
pub struct CacheKey {
    pub task_id: String,
    pub dependency_hash: String,
    pub config_hash: String,
    pub version: u64,
}

/// The content of a key.
pub open spec fn key_view(k: CacheKey) -> (Seq<char>, Seq<char>, Seq<char>, u64) {
    (k.task_id@, k.dependency_hash@, k.config_hash@, k.version)
}

impl Clone for CacheKey {
    fn clone(&self) -> (r: Self)
        ensures
            key_view(r) == key_view(*self),
    {
        CacheKey {
            task_id: self.task_id.clone(),
            dependency_hash: self.dependency_hash.clone(),
            config_hash: self.config_hash.clone(),
            version: self.version,
        }
    }
}

fn same_key(a: &CacheKey, b: &CacheKey) -> (r: bool)
    ensures
        r == (key_view(*a) == key_view(*b)),
{
    a.version == b.version && str_eq(a.task_id.as_str(), b.task_id.as_str()) && str_eq(
        a.dependency_hash.as_str(),
        b.dependency_hash.as_str(),
    ) && str_eq(a.config_hash.as_str(), b.config_hash.as_str())
}

impl CacheKey {
    /// A key from its parts.
    pub fn new(task_id: String, dependency_hash: String, config_hash: String, version: u64) -> (k: CacheKey)
        ensures
            k.task_id == task_id,
            k.dependency_hash == dependency_hash,
            k.config_hash == config_hash,
            k.version == version,
    {
        CacheKey { task_id, dependency_hash, config_hash, version }
    }

    /// The hash of a list of dependencies, in lower-case hexadecimal: the identifier,
    /// kind and lag of each go, in order, into `std`'s default hasher.
    pub fn hash_dependencies(dependencies: &Vec<AdvancedDependency>) -> (s: String)
        ensures
            s@ == lower_hex(DefaultHasher::spec_finish(writes_of(dependencies@)) as nat),
    {
        let mut hasher = DefaultHasher::new();
        let mut i: usize = 0;
        while i < dependencies.len()
            invariant
                0 <= i <= dependencies@.len(),
                hasher@ == writes_of(dependencies@.take(i as int)),
            decreases dependencies.len() - i,
        {
            hash_dependency(&mut hasher, &dependencies[i]);
            proof {
                assert(dependencies@.take(i as int + 1) =~= dependencies@.take(i as int).push(dependencies@[i as int]));
                assert(dependencies@.take(i as int + 1).drop_last() =~= dependencies@.take(i as int));
            }
            i = i + 1;
        }
        proof {
            assert(dependencies@.take(dependencies@.len() as int) =~= dependencies@);
        }
        u64_to_lower_hex(hasher.finish())
    }

    /// The hash of a calculation configuration, in lower-case hexadecimal: its start
    /// date, default duration, working-days flag and working hours go into `std`'s
    /// default hasher.
    pub fn hash_config(config: &CalculationConfig) -> (s: String)
        requires
            config.project_start_date.wf(),
            -MAX_DURATION_DAYS <= config.default_task_duration <= MAX_DURATION_DAYS,
        ensures
            s@ == lower_hex(DefaultHasher::spec_finish(config_writes(
                config.project_start_date.day() as i32,
                config.default_task_duration,
                config.working_days_only,
                config.working_hours_per_day,
            )) as nat),
    {
        proof {
            config.project_start_date.lemma_in_range();
        }
        let mut hasher = DefaultHasher::new();
        hash_config_fields(
            &mut hasher,
            config.project_start_date.day_number(),
            config.default_task_duration,
            config.working_days_only,
            config.working_hours_per_day,
        );
        proof {
            assert(hasher@ =~= config_writes(
                config.project_start_date.day() as i32,
                config.default_task_duration,
                config.working_days_only,
                config.working_hours_per_day,
            ));
        }
        u64_to_lower_hex(hasher.finish())
    }
}

// ============================================================================
// ITEMS, SETTINGS AND STATISTICS
// ============================================================================

/// How the cache is invalidated; a lifetime is in milliseconds.
#[derive(Debug, Clone, Copy, PartialEq, Eq, Structural)]
pub enum CacheInvalidationStrategy {
    Manual,
    Automatic,
    TimeBased(i64),
    VersionBased,
}

/// The views of a list of strings.
pub open spec fn string_views(v: Seq<String>) -> Seq<Seq<char>> {
    v.map_values(|x: String| x@)
}

pub(crate) fn strings_contain(v: &Vec<String>, x: &str) -> (b: bool)
    ensures
        b == string_views(v@).contains(x@),
{
    let mut i: usize = 0;
    while i < v.len()
        invariant
            0 <= i <= v@.len(),
            forall|k: int| 0 <= k < i ==> v@[k]@ != x@,
        decreases v.len() - i,
    {
        if str_eq(v[i].as_str(), x) {
            assert(string_views(v@)[i as int] == x@);
            return true;
        }
        i = i + 1;
    }
    proof {
        if string_views(v@).contains(x@) {
            let k = choose|k: int| 0 <= k < string_views(v@).len() && string_views(v@)[k] == x@;
            assert(v@[k]@ == x@);
        }
    }
    false
}

/// A cached value with what is known of it: when it was made and last read (in
/// milliseconds since the Unix epoch), how often it was read, the version of the
/// cache it belongs to, its state, its lifetime in milliseconds, and the
/// dependencies it rests on.
#[derive(Debug)]
pub struct CacheItem<T> {
    pub data: T,
    pub created_at: i64,
    pub last_accessed: i64,
    pub access_count: u64,
    pub version: u64,
    pub status: CacheItemStatus,
    pub ttl: Option<i64>,
    pub dependencies: Vec<String>,
}

impl<T> CacheItem<T> {
    /// Whether the item has outlived its lifetime at the instant `now`.
    pub open spec fn expired_at(self, now: int) -> bool {
        self.ttl matches Some(t) && now - self.created_at > t
    }

    /// A valid item made at the instant `now`, read by nobody, without lifetime or
    /// dependencies.
    pub fn new_at(data: T, version: u64, now: i64) -> (item: CacheItem<T>)
        ensures
            item == (CacheItem {
                data,
                created_at: now,
                last_accessed: now,
                access_count: 0,
                version,
                status: CacheItemStatus::Valid,
                ttl: None,
                dependencies: item.dependencies,
            }),
            item.dependencies@.len() == 0,
    {
        CacheItem {
            data,
            created_at: now,
            last_accessed: now,
            access_count: 0,
            version,
            status: CacheItemStatus::Valid,
            ttl: None,
            dependencies: Vec::new(),
        }
    }

    /// A valid item made now, read by nobody, without lifetime or dependencies.
    pub fn new(data: T, version: u64) -> (item: CacheItem<T>)
        ensures
            item == (CacheItem {
                data,
                created_at: item.created_at,
                last_accessed: item.created_at,
                access_count: 0,
                version,
                status: CacheItemStatus::Valid,
                ttl: None,
                dependencies: item.dependencies,
            }),
            item.dependencies@.len() == 0,
    {
        Self::new_at(data, version, now_millis())
    }

    /// Whether the item has outlived its lifetime at the instant `now`.
    pub fn is_expired_at(&self, now: i64) -> (b: bool)
        ensures
            b == self.expired_at(now as int),
    {
        match self.ttl {
            Some(ttl) => (now as i128) - (self.created_at as i128) > (ttl as i128),
            None => false,
        }
    }

    /// Whether the item has outlived its lifetime now.
    pub fn is_expired(&self) -> (b: bool)
        ensures
            exists|now: i64| b == self.expired_at(now as int),
    {
        self.is_expired_at(now_millis())
    }

    /// Records a read at the instant `now`.
    pub fn touch_at(&mut self, now: i64)
        requires
            old(self).access_count < u64::MAX,
        ensures
            *final(self) == (CacheItem {
                last_accessed: now,
                access_count: (old(self).access_count + 1) as u64,
                ..*old(self)
            }),
    {
        self.last_accessed = now;
        self.access_count = self.access_count + 1;
    }

    /// Records a read now.
    pub fn touch(&mut self)
        requires
            old(self).access_count < u64::MAX,
        ensures
            *final(self) == (CacheItem {
                last_accessed: final(self).last_accessed,
                access_count: (old(self).access_count + 1) as u64,
                ..*old(self)
            }),
    {
        self.touch_at(now_millis());
    }

    /// Records a dependency of the item, once.
    pub fn add_dependency(&mut self, dep: String)
        ensures
            string_views(final(self).dependencies@) == if string_views(old(self).dependencies@).contains(dep@) {
                string_views(old(self).dependencies@)
            } else {
                string_views(old(self).dependencies@).push(dep@)
            },
            *final(self) == (CacheItem { dependencies: final(self).dependencies, ..*old(self) }),
    {
        if !strings_contain(&self.dependencies, dep.as_str()) {
            let ghost d0 = self.dependencies@;
            self.dependencies.push(dep);
            proof {
                assert(string_views(self.dependencies@) =~= string_views(d0).push(self.dependencies@.last()@));
            }
        }
    }

    /// Forgets a dependency of the item.
    pub fn remove_dependency(&mut self, dep: &str)
        ensures
            string_views(final(self).dependencies@) == string_views(old(self).dependencies@).filter(
                |x: Seq<char>| x != dep@,
            ),
            *final(self) == (CacheItem { dependencies: final(self).dependencies, ..*old(self) }),
    {
        let mut kept: Vec<String> = Vec::new();
        let mut i: usize = 0;
        let ghost all = string_views(self.dependencies@);
        while i < self.dependencies.len()
            invariant
                0 <= i <= self.dependencies@.len(),
                all == string_views(self.dependencies@),
                string_views(kept@) =~= all.take(i as int).filter(|x: Seq<char>| x != dep@),
            decreases self.dependencies.len() - i,
        {
            proof {
                let before = all.take(i as int);
                assert(all.take(i as int + 1) =~= before.push(all[i as int]));
                before.filter_lemma(|x: Seq<char>| x != dep@);
                reveal(Seq::filter);
                assert(before.push(all[i as int]).drop_last() =~= before);
            }
            if !str_eq(self.dependencies[i].as_str(), dep) {
                let ghost k0 = kept@;
                kept.push(self.dependencies[i].clone());
                proof {
                    assert(string_views(kept@) =~= string_views(k0).push(all[i as int]));
                }
            }
            i = i + 1;
        }
        proof {
            assert(all.take(all.len() as int) =~= all);
        }
        self.dependencies = kept;
    }
}

/// The settings of the cache: its largest number of items, the lifetime given to new
/// items and the interval between automatic cleanups (both in milliseconds), the
/// invalidation strategy, and the switches.
#[derive(Debug, Clone, PartialEq, Eq)]
pub struct CacheConfig {
    pub max_size: usize,
    pub default_ttl: Option<i64>,
    pub invalidation_strategy: CacheInvalidationStrategy,
    pub enabled: bool,
    pub auto_cleanup: bool,
    pub cleanup_interval: i64,
    pub persistence_enabled: bool,
    pub persistence_path: Option<String>,
}

impl Default for CacheConfig {
    /// A thousand items, an hour's lifetime, automatic invalidation, cleanup every
    /// half hour, no persistence.
    fn default() -> (c: Self)
        ensures
            c.max_size == 1000,
            c.default_ttl == Some(3_600_000i64),
            c.invalidation_strategy == CacheInvalidationStrategy::Automatic,
            c.enabled && c.auto_cleanup,
            c.cleanup_interval == 1_800_000,
            !c.persistence_enabled,
            c.persistence_path is None,
    {
        CacheConfig {
            max_size: 1000,
            default_ttl: Some(3_600_000),
            invalidation_strategy: CacheInvalidationStrategy::Automatic,
            enabled: true,
            auto_cleanup: true,
            cleanup_interval: 1_800_000,
            persistence_enabled: false,
            persistence_path: None,
        }
    }
}

/// Counts of the cache: its items by state, its hits and misses, its estimated size
/// in bytes, and the making times of its oldest and newest items (in milliseconds
/// since the Unix epoch). The share of hits is taken from the two counts.
#[derive(Debug, Clone, Copy, PartialEq, Eq)]
pub struct CacheStats {
    pub total_items: usize,
    pub valid_items: usize,
    pub expired_items: usize,
    pub invalid_items: usize,
    pub hit_count: u64,
    pub miss_count: u64,
    pub memory_usage: usize,
    pub oldest_item: Option<i64>,
    pub newest_item: Option<i64>,
}

// ============================================================================
// MODEL OF THE CACHE
// ============================================================================

/// A cached calculation under its key.
pub type CacheEntry = (CacheKey, CacheItem<CalculationResult>);

/// The content of a key, as a tuple.
pub type KeyView = (Seq<char>, Seq<char>, Seq<char>, u64);

/// The position of the first entry, from position `i` on, filed under the key.
pub open spec fn find_entry_from(e: Seq<CacheEntry>, k: KeyView, i: int) -> Option<int>
    decreases e.len() - i,
{
    if i < 0 || i >= e.len() {
        None
    } else if key_view(e[i].0) == k {
        Some(i)
    } else {
        find_entry_from(e, k, i + 1)
    }
}

/// The position of the first entry filed under the key.
pub open spec fn find_entry(e: Seq<CacheEntry>, k: KeyView) -> Option<int> {
    find_entry_from(e, k, 0)
}

/// The first position from `i` on holds the key, where one does.
pub proof fn lemma_find_entry_from(e: Seq<CacheEntry>, k: KeyView, i: int)
    requires
        0 <= i <= e.len(),
    ensures
        find_entry_from(e, k, i) matches Some(j) ==> i <= j < e.len() && key_view(e[j].0) == k
            && forall|q: int| i <= q < j ==> key_view(#[trigger] e[q].0) != k,
        find_entry_from(e, k, i) is None ==> forall|j: int| i <= j < e.len() ==> key_view(e[j].0) != k,
    decreases e.len() - i,
{
    if i < e.len() {
        lemma_find_entry_from(e, k, i + 1);
    }
}

/// Whether a calculation configuration can be hashed: its start date lies in range and
/// its default duration fits a `chrono::Duration`.
pub open spec fn hashable(config: CalculationConfig) -> bool {
    &&& config.project_start_date.wf()
    &&& -MAX_DURATION_DAYS <= config.default_task_duration <= MAX_DURATION_DAYS
}

/// The key under which the cache files the calculation of a task with these
/// dependencies and this configuration, at a version of the cache.
pub open spec fn key_for(task_id: Seq<char>, deps: Seq<AdvancedDependency>, config: CalculationConfig, version: u64) -> KeyView {
    (
        task_id,
        lower_hex(DefaultHasher::spec_finish(writes_of(deps)) as nat),
        lower_hex(DefaultHasher::spec_finish(config_writes(
            config.project_start_date.day() as i32,
            config.default_task_duration,
            config.working_days_only,
            config.working_hours_per_day,
        )) as nat),
        version,
    )
}

/// The number of entries in a state.
pub open spec fn count_status(e: Seq<CacheEntry>, st: CacheItemStatus) -> nat
    decreases e.len(),
{
    if e.len() == 0 {
        0
    } else {
        count_status(e.drop_last(), st) + if e.last().1.status == st { 1nat } else { 0nat }
    }
}

/// The number of entries that have outlived their lifetime at the instant `now`.
pub open spec fn count_expired(e: Seq<CacheEntry>, now: int) -> nat
    decreases e.len(),
{
    if e.len() == 0 {
        0
    } else {
        count_expired(e.drop_last(), now) + if e.last().1.expired_at(now) { 1nat } else { 0nat }
    }
}

/// The earliest making time of the entries.
pub open spec fn earliest_made(e: Seq<CacheEntry>) -> Option<i64>
    decreases e.len(),
{
    if e.len() == 0 {
        None
    } else {
        match earliest_made(e.drop_last()) {
            Some(m) => Some(if e.last().1.created_at < m { e.last().1.created_at } else { m }),
            None => Some(e.last().1.created_at),
        }
    }
}

/// The latest making time of the entries.
pub open spec fn latest_made(e: Seq<CacheEntry>) -> Option<i64>
    decreases e.len(),
{
    if e.len() == 0 {
        None
    } else {
        match latest_made(e.drop_last()) {
            Some(m) => Some(if e.last().1.created_at > m { e.last().1.created_at } else { m }),
            None => Some(e.last().1.created_at),
        }
    }
}

/// The estimated size in bytes of `n` items, at most the largest `usize`.
pub open spec fn memory_estimate(n: int) -> int {
    let b = n * vstd::layout::size_of::<CacheItem<CalculationResult>>();
    if b <= usize::MAX { b } else { usize::MAX as int }
}

/// Whether the counts describe the entries at the instant `now`, hits and misses
/// kept from before.
pub open spec fn counted(s: CacheStats, before: CacheStats, e: Seq<CacheEntry>, now: int) -> bool {
    &&& s.total_items == e.len()
    &&& s.valid_items == count_status(e, CacheItemStatus::Valid)
    &&& s.expired_items == count_expired(e, now)
    &&& s.invalid_items == count_status(e, CacheItemStatus::Invalid)
    &&& s.hit_count == before.hit_count
    &&& s.miss_count == before.miss_count
    &&& s.memory_usage == memory_estimate(e.len() as int)
    &&& s.oldest_item == earliest_made(e)
    &&& s.newest_item == latest_made(e)
}

/// The position of the least recently read entry, scanning from position `i` with the
/// best one so far; the first of them where several tie.
pub open spec fn least_read_from(e: Seq<CacheEntry>, i: int, best: Option<int>) -> Option<int>
    decreases e.len() - i,
{
    if i < 0 || i >= e.len() {
        best
    } else {
        match best {
            Some(b) => if e[i].1.last_accessed < e[b].1.last_accessed {
                least_read_from(e, i + 1, Some(i))
            } else {
                least_read_from(e, i + 1, best)
            },
            None => least_read_from(e, i + 1, Some(i)),
        }
    }
}

/// The entries without the least recently read one.
pub open spec fn evicted(e: Seq<CacheEntry>) -> Seq<CacheEntry> {
    match least_read_from(e, 0, None) {
        Some(i) => e.remove(i),
        None => e,
    }
}

/// The identifiers of a list of dependencies, each once, at its first place.
pub open spec fn dependency_ids(deps: Seq<AdvancedDependency>) -> Seq<Seq<char>>
    decreases deps.len(),
{
    if deps.len() == 0 {
        Seq::empty()
    } else {
        let r = dependency_ids(deps.drop_last());
        if r.contains(deps.last().id@) { r } else { r.push(deps.last().id@) }
    }
}

/// Whether an item is the one the cache makes for a result: valid, made and read at
/// `now`, never read since, at the version, with the lifetime, resting on the
/// dependencies.
pub open spec fn item_made(
    it: CacheItem<CalculationResult>,
    result: CalculationResult,
    version: u64,
    now: i64,
    ttl: Option<i64>,
    deps: Seq<AdvancedDependency>,
) -> bool {
    &&& it.data == result
    &&& it.created_at == now
    &&& it.last_accessed == now
    &&& it.access_count == 0
    &&& it.version == version
    &&& it.status == CacheItemStatus::Valid
    &&& it.ttl == ttl
    &&& string_views(it.dependencies@) == dependency_ids(deps)
}

/// Whether `after` holds the entries of `before` with the item filed under `k`: in the
/// place of the entry already under `k`, or at the end.
pub open spec fn filed(
    after: Seq<CacheEntry>,
    before: Seq<CacheEntry>,
    k: KeyView,
    result: CalculationResult,
    version: u64,
    now: i64,
    ttl: Option<i64>,
    deps: Seq<AdvancedDependency>,
) -> bool {
    match find_entry(before, k) {
        Some(i) => {
            &&& after.len() == before.len()
            &&& forall|j: int| 0 <= j < before.len() && j != i ==> #[trigger] after[j] == before[j]
            &&& key_view(after[i].0) == k
            &&& item_made(after[i].1, result, version, now, ttl, deps)
        },
        None => {
            &&& after.len() == before.len() + 1
            &&& after.drop_last() == before
            &&& key_view(after.last().0) == k
            &&& item_made(after.last().1, result, version, now, ttl, deps)
        },
    }
}

/// The index of dependencies to keys, as identifiers and key contents.
pub type DependencyIndex = Seq<(Seq<char>, Seq<KeyView>)>;

/// The position of the first list filed under the identifier, from position `i` on.
pub open spec fn find_list_from(m: DependencyIndex, id: Seq<char>, i: int) -> Option<int>
    decreases m.len() - i,
{
    if i < 0 || i >= m.len() {
        None
    } else if m[i].0 == id {
        Some(i)
    } else {
        find_list_from(m, id, i + 1)
    }
}

/// The keys filed under a dependency.
pub open spec fn keys_of(m: DependencyIndex, id: Seq<char>) -> Seq<KeyView> {
    match find_list_from(m, id, 0) {
        Some(i) => m[i].1,
        None => Seq::empty(),
    }
}

/// The index with the key filed under the dependency, once.
pub open spec fn with_key(m: DependencyIndex, id: Seq<char>, k: KeyView) -> DependencyIndex {
    match find_list_from(m, id, 0) {
        Some(i) => m.update(i, (m[i].0, if m[i].1.contains(k) { m[i].1 } else { m[i].1.push(k) })),
        None => m.push((id, seq![k])),
    }
}

/// The index with the key filed under each of the dependencies, in order.
pub open spec fn with_keys(m: DependencyIndex, deps: Seq<AdvancedDependency>, k: KeyView) -> DependencyIndex
    decreases deps.len(),
{
    if deps.len() == 0 {
        m
    } else {
        with_key(with_keys(m, deps.drop_last(), k), deps.last().id@, k)
    }
}

/// The entries whose keys are among the given ones, made invalid.
pub open spec fn marked(e: Seq<CacheEntry>, keys: Seq<KeyView>) -> Seq<CacheEntry> {
    e.map_values(|en: CacheEntry| if keys.contains(key_view(en.0)) {
        (en.0, CacheItem { status: CacheItemStatus::Invalid, ..en.1 })
    } else {
        en
    })
}

/// The number of entries whose keys are among the given ones.
pub open spec fn count_keyed(e: Seq<CacheEntry>, keys: Seq<KeyView>) -> nat
    decreases e.len(),
{
    if e.len() == 0 {
        0
    } else {
        count_keyed(e.drop_last(), keys) + if keys.contains(key_view(e.last().0)) { 1nat } else { 0nat }
    }
}

/// Whether an entry is still valid.
pub open spec fn not_invalid(en: CacheEntry) -> bool {
    en.1.status != CacheItemStatus::Invalid
}

/// The entries that have not outlived their lifetime at `now`.
pub open spec fn unexpired(e: Seq<CacheEntry>, now: int) -> Seq<CacheEntry> {
    e.filter(|en: CacheEntry| !en.1.expired_at(now))
}

/// The entries that are not invalid.
pub open spec fn without_invalid(e: Seq<CacheEntry>) -> Seq<CacheEntry> {
    e.filter(|en: CacheEntry| not_invalid(en))
}

/// The entries of tasks other than the given one.
pub open spec fn without_task(e: Seq<CacheEntry>, task_id: Seq<char>) -> Seq<CacheEntry> {
    e.filter(|en: CacheEntry| en.0.task_id@ != task_id)
}

/// No entry is filed under a key of an empty list.
pub proof fn lemma_count_keyed_none(e: Seq<CacheEntry>)
    ensures
        count_keyed(e, Seq::empty()) == 0,
    decreases e.len(),
{
    if e.len() > 0 {
        lemma_count_keyed_none(e.drop_last());
    }
}

// ============================================================================
// STEPS OF THE CACHE
// ============================================================================

/// The contents of the keys of a list.
pub open spec fn key_views(keys: Seq<CacheKey>) -> Seq<KeyView> {
    keys.map_values(|k: CacheKey| key_view(k))
}

/// The contents of an index of dependencies to keys.
pub open spec fn index_view(m: Seq<(String, Vec<CacheKey>)>) -> DependencyIndex {
    m.map_values(|p: (String, Vec<CacheKey>)| (p.0@, key_views(p.1@)))
}

fn entry_position(cache: &Vec<CacheEntry>, key: &CacheKey) -> (r: Option<usize>)
    ensures
        match find_entry(cache@, key_view(*key)) {
            Some(i) => r matches Some(j) && j == i,
            None => r is None,
        },
        r matches Some(j) ==> j < cache@.len(),
{
    proof {
        lemma_find_entry_from(cache@, key_view(*key), 0);
    }
    let mut i: usize = 0;
    while i < cache.len()
        invariant
            0 <= i <= cache@.len(),
            find_entry(cache@, key_view(*key)) == find_entry_from(cache@, key_view(*key), i as int),
        decreases cache.len() - i,
    {
        if same_key(&cache[i].0, key) {
            return Some(i);
        }
        i = i + 1;
    }
    None
}

fn keys_contain(keys: &Vec<CacheKey>, k: &CacheKey) -> (b: bool)
    ensures
        b == key_views(keys@).contains(key_view(*k)),
{
    let mut i: usize = 0;
    while i < keys.len()
        invariant
            0 <= i <= keys@.len(),
            forall|j: int| 0 <= j < i ==> key_view(keys@[j]) != key_view(*k),
        decreases keys.len() - i,
    {
        if same_key(&keys[i], k) {
            assert(key_views(keys@)[i as int] == key_view(*k));
            return true;
        }
        i = i + 1;
    }
    proof {
        if key_views(keys@).contains(key_view(*k)) {
            let j = choose|j: int| 0 <= j < key_views(keys@).len() && key_views(keys@)[j] == key_view(*k);
            assert(key_view(keys@[j]) == key_view(*k));
        }
    }
    false
}

fn list_position(map: &Vec<(String, Vec<CacheKey>)>, id: &str) -> (r: Option<usize>)
    ensures
        match find_list_from(index_view(map@), id@, 0) {
            Some(i) => r matches Some(j) && j == i,
            None => r is None,
        },
        r matches Some(j) ==> j < map@.len(),
{
    let ghost m = index_view(map@);
    let mut i: usize = 0;
    while i < map.len()
        invariant
            0 <= i <= map@.len(),
            m == index_view(map@),
            find_list_from(m, id@, 0) == find_list_from(m, id@, i as int),
        decreases map.len() - i,
    {
        if str_eq(map[i].0.as_str(), id) {
            assert(m[i as int].0 == id@);
            return Some(i);
        }
        i = i + 1;
    }
    None
}

/// Files a key under a dependency, once.
fn file_key(map: &mut Vec<(String, Vec<CacheKey>)>, id: &String, key: &CacheKey)
    ensures
        index_view(final(map)@) == with_key(index_view(old(map)@), id@, key_view(*key)),
{
    let ghost m0 = index_view(map@);
    match list_position(map, id.as_str()) {
        Some(i) => {
            if !keys_contain(&map[i].1, key) {
                let ghost list0 = map@[i as int].1@;
                map[i].1.push(key.clone());
                proof {
                    assert(key_views(map@[i as int].1@) =~= key_views(list0).push(key_view(*key)));
                    assert(index_view(map@) =~= m0.update(i as int, (m0[i as int].0, m0[i as int].1.push(key_view(*key)))));
                }
            } else {
                assert(index_view(map@) =~= m0.update(i as int, (m0[i as int].0, m0[i as int].1)));
            }
        },
        None => {
            let mut keys: Vec<CacheKey> = Vec::new();
            keys.push(key.clone());
            map.push((id.clone(), keys));
            proof {
                assert(key_views(map@.last().1@) =~= seq![key_view(*key)]);
                assert(index_view(map@) =~= m0.push((id@, seq![key_view(*key)])));
            }
        },
    }
}

/// The entries that are not invalid, in order.
fn drop_invalid(v: Vec<CacheEntry>) -> (r: Vec<CacheEntry>)
    ensures
        r@ == without_invalid(v@),
{
    let ghost orig = v@;
    assert(orig.len() == v.len());
    let mut rest = v;
    let mut kept: Vec<CacheEntry> = Vec::new();
    let mut i: usize = 0;
    while rest.len() > 0
        invariant
            0 <= i <= orig.len(),
            orig.len() <= usize::MAX,
            rest@ == orig.subrange(i as int, orig.len() as int),
            kept@ == orig.take(i as int).filter(|en: CacheEntry| not_invalid(en)),
        decreases rest.len(),
    {
        let x = rest.remove(0);
        proof {
            let before = orig.take(i as int);
            assert(x == orig[i as int]);
            assert(orig.take(i as int + 1) =~= before.push(x));
            before.filter_lemma(|en: CacheEntry| not_invalid(en));
            reveal(Seq::filter);
            assert(before.push(x).drop_last() =~= before);
        }
        if x.1.status != CacheItemStatus::Invalid {
            kept.push(x);
        }
        i = i + 1;
    }
    proof {
        assert(orig.take(orig.len() as int) =~= orig);
    }
    kept
}

/// The entries that have not outlived their lifetime at `now`, in order.
fn drop_expired(v: Vec<CacheEntry>, now: i64) -> (r: Vec<CacheEntry>)
    ensures
        r@ == unexpired(v@, now as int),
{
    let ghost orig = v@;
    assert(orig.len() == v.len());
    let mut rest = v;
    let mut kept: Vec<CacheEntry> = Vec::new();
    let mut i: usize = 0;
    while rest.len() > 0
        invariant
            0 <= i <= orig.len(),
            orig.len() <= usize::MAX,
            rest@ == orig.subrange(i as int, orig.len() as int),
            kept@ == orig.take(i as int).filter(|en: CacheEntry| !en.1.expired_at(now as int)),
        decreases rest.len(),
    {
        let x = rest.remove(0);
        proof {
            let before = orig.take(i as int);
            assert(x == orig[i as int]);
            assert(orig.take(i as int + 1) =~= before.push(x));
            before.filter_lemma(|en: CacheEntry| !en.1.expired_at(now as int));
            reveal(Seq::filter);
            assert(before.push(x).drop_last() =~= before);
        }
        if !x.1.is_expired_at(now) {
            kept.push(x);
        }
        i = i + 1;
    }
    proof {
        assert(orig.take(orig.len() as int) =~= orig);
    }
    kept
}

/// The entries of tasks other than the given one, in order.
fn drop_task(v: Vec<CacheEntry>, task_id: &str) -> (r: Vec<CacheEntry>)
    ensures
        r@ == without_task(v@, task_id@),
{
    let ghost orig = v@;
    assert(orig.len() == v.len());
    let mut rest = v;
    let mut kept: Vec<CacheEntry> = Vec::new();
    let mut i: usize = 0;
    while rest.len() > 0
        invariant
            0 <= i <= orig.len(),
            orig.len() <= usize::MAX,
            rest@ == orig.subrange(i as int, orig.len() as int),
            kept@ == orig.take(i as int).filter(|en: CacheEntry| en.0.task_id@ != task_id@),
        decreases rest.len(),
    {
        let x = rest.remove(0);
        proof {
            let before = orig.take(i as int);
            assert(x == orig[i as int]);
            assert(orig.take(i as int + 1) =~= before.push(x));
            before.filter_lemma(|en: CacheEntry| en.0.task_id@ != task_id@);
            reveal(Seq::filter);
            assert(before.push(x).drop_last() =~= before);
        }
        if !str_eq(x.0.task_id.as_str(), task_id) {
            kept.push(x);
        }
        i = i + 1;
    }
    proof {
        assert(orig.take(orig.len() as int) =~= orig);
    }
    kept
}

/// Makes invalid the entries whose keys are among the given ones, and counts them.
fn mark_keyed(v: &mut Vec<CacheEntry>, keys: &Vec<CacheKey>) -> (n: usize)
    ensures
        final(v)@ == marked(old(v)@, key_views(keys@)),
        n == count_keyed(old(v)@, key_views(keys@)),
{
    let ghost orig = v@;
    let ghost ks = key_views(keys@);
    let ghost goal = marked(orig, ks);
    let mut n: usize = 0;
    let mut i: usize = 0;
    while i < v.len()
        invariant
            0 <= i <= v@.len(),
            v@.len() == orig.len(),
            ks == key_views(keys@),
            goal == marked(orig, ks),
            forall|j: int| 0 <= j < i ==> v@[j] == goal[j],
            forall|j: int| i <= j < v@.len() ==> v@[j] == orig[j],
            n == count_keyed(orig.take(i as int), ks),
            n <= i,
        decreases v.len() - i,
    {
        proof {
            assert(orig.take(i as int + 1).drop_last() =~= orig.take(i as int));
        }
        if keys_contain(keys, &v[i].0) {
            v[i].1.status = CacheItemStatus::Invalid;
            n = n + 1;
        }
        i = i + 1;
    }
    proof {
        assert(orig.take(orig.len() as int) =~= orig);
        assert(v@ =~= goal);
    }
    n
}

/// The counts of the entries at the instant `now`, hits and misses kept.
fn count_entries(v: &Vec<CacheEntry>, before: &CacheStats, now: i64) -> (s: CacheStats)
    ensures
        counted(s, *before, v@, now as int),
{
    let mut valid: usize = 0;
    let mut expired: usize = 0;
    let mut invalid: usize = 0;
    let mut oldest: Option<i64> = None;
    let mut newest: Option<i64> = None;
    let mut i: usize = 0;
    while i < v.len()
        invariant
            0 <= i <= v@.len(),
            valid == count_status(v@.take(i as int), CacheItemStatus::Valid),
            expired == count_expired(v@.take(i as int), now as int),
            invalid == count_status(v@.take(i as int), CacheItemStatus::Invalid),
            oldest == earliest_made(v@.take(i as int)),
            newest == latest_made(v@.take(i as int)),
            valid <= i && expired <= i && invalid <= i,
        decreases v.len() - i,
    {
        proof {
            assert(v@.take(i as int + 1).drop_last() =~= v@.take(i as int));
        }
        let item = &v[i].1;
        if item.status == CacheItemStatus::Valid {
            valid = valid + 1;
        }
        if item.is_expired_at(now) {
            expired = expired + 1;
        }
        if item.status == CacheItemStatus::Invalid {
            invalid = invalid + 1;
        }
        oldest = match oldest {
            Some(m) => Some(if item.created_at < m { item.created_at } else { m }),
            None => Some(item.created_at),
        };
        newest = match newest {
            Some(m) => Some(if item.created_at > m { item.created_at } else { m }),
            None => Some(item.created_at),
        };
        i = i + 1;
    }
    proof {
        assert(v@.take(v@.len() as int) =~= v@);
    }
    let memory_usage = match v.len().checked_mul(core::mem::size_of::<CacheItem<CalculationResult>>()) {
        Some(b) => b,
        None => usize::MAX,
    };
    CacheStats {
        total_items: v.len(),
        valid_items: valid,
        expired_items: expired,
        invalid_items: invalid,
        hit_count: before.hit_count,
        miss_count: before.miss_count,
        memory_usage,
        oldest_item: oldest,
        newest_item: newest,
    }
}

/// The position of the least recently read entry; the first of them where several tie.
fn least_read(v: &Vec<CacheEntry>) -> (r: Option<usize>)
    ensures
        match least_read_from(v@, 0, None) {
            Some(i) => r matches Some(j) && j == i && j < v@.len(),
            None => r is None && v@.len() == 0,
        },
{
    let mut best: Option<usize> = None;
    let mut i: usize = 0;
    while i < v.len()
        invariant
            0 <= i <= v@.len(),
            best matches Some(b) ==> b < i,
            i > 0 ==> best is Some,
            least_read_from(v@, 0, None) == least_read_from(v@, i as int, match best {
                Some(b) => Some(b as int),
                None => None,
            }),
        decreases v.len() - i,
    {
        best = match best {
            Some(b) => if v[i].1.last_accessed < v[b].1.last_accessed { Some(i) } else { Some(b) },
            None => Some(i),
        };
        i = i + 1;
    }
    best
}

// ============================================================================
// THE CACHE
// ============================================================================

/// A cache of calculated results. Each result is filed under a key made from its
/// task, the hash of its dependencies, the hash of the calculation's configuration
/// and the cache's version; an index files under each dependency the keys of the
/// results that rest on it. Times are in milliseconds since the Unix epoch.
#[derive(Debug)]
pub struct CalculationCacheSystem {
    config: CacheConfig,
    cache: Vec<CacheEntry>,
    dependency_map: Vec<(String, Vec<CacheKey>)>,
    version: u64,
    stats: CacheStats,
    last_cleanup: i64,
}

/// Counts of an empty cache that has not been read.
pub open spec fn zero_stats() -> CacheStats {
    CacheStats {
        total_items: 0,
        valid_items: 0,
        expired_items: 0,
        invalid_items: 0,
        hit_count: 0,
        miss_count: 0,
        memory_usage: 0,
        oldest_item: None,
        newest_item: None,
    }
}

impl CalculationCacheSystem {
    /// The cached entries, in order.
    pub closed spec fn entries(self) -> Seq<CacheEntry> {
        self.cache@
    }

    /// The index of dependencies to keys.
    pub closed spec fn index(self) -> DependencyIndex {
        index_view(self.dependency_map@)
    }

    /// The settings.
    pub closed spec fn settings(self) -> CacheConfig {
        self.config
    }

    /// The counts.
    pub closed spec fn counts(self) -> CacheStats {
        self.stats
    }

    /// The version, which goes into every key.
    pub closed spec fn version(self) -> u64 {
        self.version
    }

    /// When the cache was last cleaned up.
    pub closed spec fn last_cleanup(self) -> i64 {
        self.last_cleanup
    }

    /// Whether one more read can be counted: the hits, the misses and the reads of
    /// every item are below the largest `u64`.
    pub open spec fn can_count_read(self) -> bool {
        &&& self.counts().hit_count < u64::MAX
        &&& self.counts().miss_count < u64::MAX
        &&& forall|i: int| 0 <= i < self.entries().len() ==> (#[trigger] self.entries()[i]).1.access_count < u64::MAX
    }

    /// What reading the result of a task at the instant `now` does: a valid, living
    /// item is handed out and counted as a hit and a read; an invalid or expired one
    /// is made invalid and counted as a miss, as is a missing one. A disabled cache
    /// does nothing.
    pub open spec fn read(self, after: Self, r: Option<CalculationResult>, task_id: Seq<char>, deps: Seq<AdvancedDependency>, config: CalculationConfig, now: i64) -> bool {
        if !self.settings().enabled {
            r is None && after == self
        } else {
            let k = key_for(task_id, deps, config, self.version());
            let c = self.counts();
            &&& after.settings() == self.settings()
            &&& after.index() == self.index()
            &&& after.version() == self.version()
            &&& after.last_cleanup() == self.last_cleanup()
            &&& match find_entry(self.entries(), k) {
                Some(i) => {
                    let en = self.entries()[i];
                    if en.1.status == CacheItemStatus::Valid && !en.1.expired_at(now as int) {
                        &&& r == Some(en.1.data)
                        &&& after.entries() == self.entries().update(i, (en.0, CacheItem {
                            last_accessed: now,
                            access_count: (en.1.access_count + 1) as u64,
                            ..en.1
                        }))
                        &&& after.counts() == (CacheStats { hit_count: (c.hit_count + 1) as u64, ..c })
                    } else {
                        &&& r is None
                        &&& after.entries() == self.entries().update(i, (en.0, CacheItem {
                            status: CacheItemStatus::Invalid,
                            ..en.1
                        }))
                        &&& after.counts() == (CacheStats { miss_count: (c.miss_count + 1) as u64, ..c })
                    }
                },
                None => {
                    &&& r is None
                    &&& after.entries() == self.entries()
                    &&& after.counts() == (CacheStats { miss_count: (c.miss_count + 1) as u64, ..c })
                },
            }
        }
    }

    /// What storing a result at the instant `now` does: where the cache is full, the
    /// least recently read item leaves; the new item, valid and living as long as the
    /// settings say, is filed under its key, in place of the item already there; its
    /// key is filed under each of its dependencies; the counts are taken anew. A
    /// disabled cache does nothing.
    pub open spec fn stored(self, after: Self, r: Result<(), DomainError>, task_id: Seq<char>, deps: Seq<AdvancedDependency>, config: CalculationConfig, result: CalculationResult, now: i64) -> bool {
        &&& r is Ok
        &&& if !self.settings().enabled {
            after == self
        } else {
            let e1 = if self.entries().len() >= self.settings().max_size { evicted(self.entries()) } else { self.entries() };
            let k = key_for(task_id, deps, config, self.version());
            &&& filed(after.entries(), e1, k, result, self.version(), now, self.settings().default_ttl, deps)
            &&& after.index() == with_keys(self.index(), deps, k)
            &&& counted(after.counts(), self.counts(), after.entries(), now as int)
            &&& after.settings() == self.settings()
            &&& after.version() == self.version()
            &&& after.last_cleanup() == self.last_cleanup()
        }
    }

    /// What invalidating by a dependency at the instant `now` does: the items filed
    /// under it are made invalid and counted, then every invalid item leaves and the
    /// counts are taken anew. A disabled cache does nothing.
    pub open spec fn invalidated_by_dependency(self, after: Self, r: Result<usize, DomainError>, dependency_id: Seq<char>, now: i64) -> bool {
        if !self.settings().enabled {
            r == Ok::<usize, DomainError>(0) && after == self
        } else {
            let ks = keys_of(self.index(), dependency_id);
            &&& r matches Ok(n) && n == count_keyed(self.entries(), ks)
            &&& after.entries() == without_invalid(marked(self.entries(), ks))
            &&& counted(after.counts(), self.counts(), after.entries(), now as int)
            &&& after.index() == self.index()
            &&& after.settings() == self.settings()
            &&& after.version() == self.version()
            &&& after.last_cleanup() == self.last_cleanup()
        }
    }

    /// What invalidating by a task at the instant `now` does: the items of the task
    /// leave, are counted, and the counts are taken anew. A disabled cache does nothing.
    pub open spec fn invalidated_by_task(self, after: Self, r: Result<usize, DomainError>, task_id: Seq<char>, now: i64) -> bool {
        if !self.settings().enabled {
            r == Ok::<usize, DomainError>(0) && after == self
        } else {
            &&& after.entries() == without_task(self.entries(), task_id)
            &&& r matches Ok(n) && n == self.entries().len() - after.entries().len()
            &&& counted(after.counts(), self.counts(), after.entries(), now as int)
            &&& after.index() == self.index()
            &&& after.settings() == self.settings()
            &&& after.version() == self.version()
            &&& after.last_cleanup() == self.last_cleanup()
        }
    }

    /// What invalidating everything at the instant `now` does: every item and the
    /// index go, the version moves on, the items are counted. A disabled cache does
    /// nothing.
    pub open spec fn invalidated_all(self, after: Self, r: Result<usize, DomainError>, now: i64) -> bool {
        if !self.settings().enabled {
            r == Ok::<usize, DomainError>(0) && after == self
        } else {
            &&& r matches Ok(n) && n == self.entries().len()
            &&& after.entries().len() == 0
            &&& after.index().len() == 0
            &&& after.version() == self.version() + 1
            &&& counted(after.counts(), self.counts(), after.entries(), now as int)
            &&& after.settings() == self.settings()
            &&& after.last_cleanup() == self.last_cleanup()
        }
    }

    /// What cleaning up at the instant `now` does: where automatic cleanup is on and
    /// the interval has passed since the last one, the expired items and then the
    /// invalid ones leave, are counted, and `now` becomes the last cleanup. Otherwise,
    /// and in a disabled cache, nothing happens.
    pub open spec fn cleaned(self, after: Self, r: Result<usize, DomainError>, now: i64) -> bool {
        if self.settings().enabled && self.settings().auto_cleanup
            && now - self.last_cleanup() > self.settings().cleanup_interval {
            let e2 = without_invalid(unexpired(self.entries(), now as int));
            &&& after.entries() == e2
            &&& r matches Ok(n) && n == self.entries().len() - e2.len()
            &&& counted(after.counts(), self.counts(), e2, now as int)
            &&& after.last_cleanup() == now
            &&& after.index() == self.index()
            &&& after.settings() == self.settings()
            &&& after.version() == self.version()
        } else {
            r == Ok::<usize, DomainError>(0) && after == self
        }
    }

    /// An empty cache with the settings, at version 1.
    pub fn new(config: CacheConfig) -> (c: CalculationCacheSystem)
        ensures
            c.settings() == config,
            c.entries().len() == 0,
            c.index().len() == 0,
            c.version() == 1,
            c.counts() == zero_stats(),
    {
        let c = CalculationCacheSystem {
            config,
            cache: Vec::new(),
            dependency_map: Vec::new(),
            version: 1,
            stats: CacheStats {
                total_items: 0,
                valid_items: 0,
                expired_items: 0,
                invalid_items: 0,
                hit_count: 0,
                miss_count: 0,
                memory_usage: 0,
                oldest_item: None,
                newest_item: None,
            },
            last_cleanup: now_millis(),
        };
        assert(index_view(c.dependency_map@) =~= Seq::<(Seq<char>, Seq<KeyView>)>::empty());
        c
    }

    /// An empty cache with the default settings.
    pub fn with_default_config() -> (c: CalculationCacheSystem)
        ensures
            c.settings().max_size == 1000,
            c.settings().enabled && c.settings().auto_cleanup,
            c.entries().len() == 0,
            c.index().len() == 0,
            c.version() == 1,
            c.counts() == zero_stats(),
    {
        Self::new(CacheConfig::default())
    }

    fn create_cache_key(&self, task_id: &str, dependencies: &Vec<AdvancedDependency>, config: &CalculationConfig) -> (k: CacheKey)
        requires
            hashable(*config),
        ensures
            key_view(k) == key_for(task_id@, dependencies@, *config, self.version),
    {
        let dependency_hash = CacheKey::hash_dependencies(dependencies);
        let config_hash = CacheKey::hash_config(config);
        CacheKey::new(String::from_str(task_id), dependency_hash, config_hash, self.version)
    }

    /// Reads the result of a task at the instant `now`.
    pub fn get_at(&mut self, task_id: &str, dependencies: &Vec<AdvancedDependency>, config: &CalculationConfig, now: i64) -> (r: Option<CalculationResult>)
        requires
            hashable(*config),
            old(self).can_count_read(),
        ensures
            old(self).read(*final(self), r, task_id@, dependencies@, *config, now),
    {
        if !self.config.enabled {
            return None;
        }
        let key = self.create_cache_key(task_id, dependencies, config);
        match entry_position(&self.cache, &key) {
            Some(i) => {
                if self.cache[i].1.status == CacheItemStatus::Valid && !self.cache[i].1.is_expired_at(now) {
                    assert(self.cache@[i as int].1.access_count < u64::MAX);
                    self.cache[i].1.touch_at(now);
                    self.stats.hit_count = self.stats.hit_count + 1;
                    let data = self.cache[i].1.data.clone();
                    Some(data)
                } else {
                    self.cache[i].1.status = CacheItemStatus::Invalid;
                    self.stats.miss_count = self.stats.miss_count + 1;
                    None
                }
            },
            None => {
                self.stats.miss_count = self.stats.miss_count + 1;
                None
            },
        }
    }

    /// Reads the result of a task now.
    pub fn get(&mut self, task_id: &str, dependencies: &Vec<AdvancedDependency>, config: &CalculationConfig) -> (r: Option<CalculationResult>)
        requires
            hashable(*config),
            old(self).can_count_read(),
        ensures
            exists|now: i64| old(self).read(*final(self), r, task_id@, dependencies@, *config, now),
    {
        self.get_at(task_id, dependencies, config, now_millis())
    }

    /// Stores the result of a task at the instant `now`.
    pub fn put_at(
        &mut self,
        task_id: &str,
        dependencies: &Vec<AdvancedDependency>,
        config: &CalculationConfig,
        result: CalculationResult,
        now: i64,
    ) -> (r: Result<(), DomainError>)
        requires
            hashable(*config),
        ensures
            old(self).stored(*final(self), r, task_id@, dependencies@, *config, result, now),
    {
        if !self.config.enabled {
            return Ok(());
        }
        if self.cache.len() >= self.config.max_size {
            match least_read(&self.cache) {
                Some(i) => {
                    self.cache.remove(i);
                },
                None => {},
            }
        }
        let ghost e1 = self.cache@;
        let key = self.create_cache_key(task_id, dependencies, config);
        let mut item = CacheItem::new_at(result, self.version, now);
        item.ttl = self.config.default_ttl;
        let mut i: usize = 0;
        while i < dependencies.len()
            invariant
                0 <= i <= dependencies@.len(),
                string_views(item.dependencies@) == dependency_ids(dependencies@.take(i as int)),
                item == (CacheItem {
                    data: result,
                    created_at: now,
                    last_accessed: now,
                    access_count: 0,
                    version: self.version,
                    status: CacheItemStatus::Valid,
                    ttl: self.config.default_ttl,
                    dependencies: item.dependencies,
                }),
            decreases dependencies.len() - i,
        {
            proof {
                assert(dependencies@.take(i as int + 1).drop_last() =~= dependencies@.take(i as int));
            }
            item.add_dependency(dependencies[i].id.clone());
            i = i + 1;
        }
        proof {
            assert(dependencies@.take(dependencies@.len() as int) =~= dependencies@);
        }
        match entry_position(&self.cache, &key) {
            Some(j) => {
                self.cache.set(j, (key.clone(), item));
            },
            None => {
                self.cache.push((key.clone(), item));
                assert(self.cache@.drop_last() =~= e1);
            },
        }
        let ghost m0 = index_view(self.dependency_map@);
        let ghost e2 = self.cache@;
        let mut d: usize = 0;
        while d < dependencies.len()
            invariant
                0 <= d <= dependencies@.len(),
                self.cache@ == e2,
                self.config == old(self).config,
                self.version == old(self).version,
                self.stats == old(self).stats,
                self.last_cleanup == old(self).last_cleanup,
                index_view(self.dependency_map@) == with_keys(m0, dependencies@.take(d as int), key_view(key)),
            decreases dependencies.len() - d,
        {
            proof {
                assert(dependencies@.take(d as int + 1).drop_last() =~= dependencies@.take(d as int));
            }
            file_key(&mut self.dependency_map, &dependencies[d].id, &key);
            d = d + 1;
        }
        proof {
            assert(dependencies@.take(dependencies@.len() as int) =~= dependencies@);
        }
        self.stats = count_entries(&self.cache, &self.stats, now);
        Ok(())
    }

    /// Stores the result of a task now.
    pub fn put(
        &mut self,
        task_id: &str,
        dependencies: &Vec<AdvancedDependency>,
        config: &CalculationConfig,
        result: CalculationResult,
    ) -> (r: Result<(), DomainError>)
        requires
            hashable(*config),
        ensures
            exists|now: i64| old(self).stored(*final(self), r, task_id@, dependencies@, *config, result, now),
    {
        self.put_at(task_id, dependencies, config, result, now_millis())
    }

    /// Makes invalid the items filed under a dependency at the instant `now`, then
    /// drops every invalid item.
    pub fn invalidate_by_dependency_at(&mut self, dependency_id: &str, now: i64) -> (r: Result<usize, DomainError>)
        ensures
            old(self).invalidated_by_dependency(*final(self), r, dependency_id@, now),
    {
        if !self.config.enabled {
            return Ok(0);
        }
        let ghost e0 = self.cache@;
        let ghost ks = keys_of(index_view(self.dependency_map@), dependency_id@);
        let n = match list_position(&self.dependency_map, dependency_id) {
            Some(i) => mark_keyed(&mut self.cache, &self.dependency_map[i].1),
            None => {
                proof {
                    assert(marked(e0, ks) =~= e0);
                    lemma_count_keyed_none(e0);
                }
                0
            },
        };
        let mut taken: Vec<CacheEntry> = Vec::new();
        core::mem::swap(&mut taken, &mut self.cache);
        self.cache = drop_invalid(taken);
        self.stats = count_entries(&self.cache, &self.stats, now);
        Ok(n)
    }

    /// Makes invalid the items filed under a dependency now, then drops every invalid
    /// item.
    pub fn invalidate_by_dependency(&mut self, dependency_id: &str) -> (r: Result<usize, DomainError>)
        ensures
            exists|now: i64| old(self).invalidated_by_dependency(*final(self), r, dependency_id@, now),
    {
        self.invalidate_by_dependency_at(dependency_id, now_millis())
    }

    /// Drops the items of a task at the instant `now`.
    pub fn invalidate_by_task_at(&mut self, task_id: &str, now: i64) -> (r: Result<usize, DomainError>)
        ensures
            old(self).invalidated_by_task(*final(self), r, task_id@, now),
    {
        if !self.config.enabled {
            return Ok(0);
        }
        let before = self.cache.len();
        let mut taken: Vec<CacheEntry> = Vec::new();
        core::mem::swap(&mut taken, &mut self.cache);
        self.cache = drop_task(taken, task_id);
        proof {
            old(self).cache@.filter_lemma(|en: CacheEntry| en.0.task_id@ != task_id@);
        }
        let n = before - self.cache.len();
        self.stats = count_entries(&self.cache, &self.stats, now);
        Ok(n)
    }

    /// Drops the items of a task now.
    pub fn invalidate_by_task(&mut self, task_id: &str) -> (r: Result<usize, DomainError>)
        ensures
            exists|now: i64| old(self).invalidated_by_task(*final(self), r, task_id@, now),
    {
        self.invalidate_by_task_at(task_id, now_millis())
    }

    /// Drops every item and the index at the instant `now`, and moves the version on.
    pub fn invalidate_all_at(&mut self, now: i64) -> (r: Result<usize, DomainError>)
        requires
            old(self).settings().enabled ==> old(self).version() < u64::MAX,
        ensures
            old(self).invalidated_all(*final(self), r, now),
    {
        if !self.config.enabled {
            return Ok(0);
        }
        let count = self.cache.len();
        self.cache = Vec::new();
        self.dependency_map = Vec::new();
        self.version = self.version + 1;
        self.stats = count_entries(&self.cache, &self.stats, now);
        assert(index_view(self.dependency_map@) =~= Seq::<(Seq<char>, Seq<KeyView>)>::empty());
        Ok(count)
    }

    /// Drops every item and the index now, and moves the version on.
    pub fn invalidate_all(&mut self) -> (r: Result<usize, DomainError>)
        requires
            old(self).settings().enabled ==> old(self).version() < u64::MAX,
        ensures
            exists|now: i64| old(self).invalidated_all(*final(self), r, now),
    {
        self.invalidate_all_at(now_millis())
    }

    /// Drops the expired and then the invalid items at the instant `now`, where
    /// automatic cleanup is on and its interval has passed.
    pub fn cleanup_at(&mut self, now: i64) -> (r: Result<usize, DomainError>)
        ensures
            old(self).cleaned(*final(self), r, now),
    {
        if !self.config.enabled {
            return Ok(0);
        }
        if self.config.auto_cleanup
            && (now as i128) - (self.last_cleanup as i128) > (self.config.cleanup_interval as i128) {
            let before = self.cache.len();
            let mut taken: Vec<CacheEntry> = Vec::new();
            core::mem::swap(&mut taken, &mut self.cache);
            let living = drop_expired(taken, now);
            self.cache = drop_invalid(living);
            proof {
                old(self).cache@.filter_lemma(|en: CacheEntry| !en.1.expired_at(now as int));
                unexpired(old(self).cache@, now as int).filter_lemma(|en: CacheEntry| not_invalid(en));
            }
            let n = before - self.cache.len();
            self.stats = count_entries(&self.cache, &self.stats, now);
            self.last_cleanup = now;
            Ok(n)
        } else {
            Ok(0)
        }
    }

    /// Drops the expired and then the invalid items now, where automatic cleanup is on
    /// and its interval has passed.
    pub fn cleanup(&mut self) -> (r: Result<usize, DomainError>)
        ensures
            exists|now: i64| old(self).cleaned(*final(self), r, now),
    {
        self.cleanup_at(now_millis())
    }

    /// The counts.
    pub fn get_stats(&self) -> (s: &CacheStats)
        ensures
            *s == self.counts(),
    {
        &self.stats
    }

    /// The settings.
    pub fn get_config(&self) -> (c: &CacheConfig)
        ensures
            *c == self.settings(),
    {
        &self.config
    }

    /// Takes new settings; a disabled cache drops its items and its index. The counts
    /// stay as they were.
    pub fn update_config(&mut self, config: CacheConfig)
        ensures
            final(self).settings() == config,
            final(self).counts() == old(self).counts(),
            final(self).version() == old(self).version(),
            final(self).last_cleanup() == old(self).last_cleanup(),
            config.enabled ==> final(self).entries() == old(self).entries() && final(self).index() == old(self).index(),
            !config.enabled ==> final(self).entries().len() == 0 && final(self).index().len() == 0,
    {
        self.config = config;
        if !self.config.enabled {
            self.cache = Vec::new();
            self.dependency_map = Vec::new();
            assert(index_view(self.dependency_map@) =~= Seq::<(Seq<char>, Seq<KeyView>)>::empty());
        }
    }
}

// ============================================================================
// LAWS OF THE CACHE
// ============================================================================

/// After a result is filed under a key, the first entry under that key is the new one.
pub proof fn lemma_filed_is_found(
    after: Seq<CacheEntry>,
    before: Seq<CacheEntry>,
    k: KeyView,
    result: CalculationResult,
    version: u64,
    now: i64,
    ttl: Option<i64>,
    deps: Seq<AdvancedDependency>,
)
    requires
        filed(after, before, k, result, version, now, ttl, deps),
    ensures
        find_entry(after, k) matches Some(i) && 0 <= i < after.len() && item_made(after[i].1, result, version, now, ttl, deps),
{
    lemma_find_entry_from(before, k, 0);
    match find_entry(before, k) {
        Some(i) => {
            lemma_find_entry_from(after, k, 0);
            if find_entry(after, k) != Some(i) {
                match find_entry(after, k) {
                    Some(j) => {
                        assert(after[j] == before[j]);
                    },
                    None => {
                        assert(key_view(after[i].0) == k);
                    },
                }
            }
        },
        None => {
            lemma_find_entry_from(after, k, 0);
            let last = after.len() - 1;
            if find_entry(after, k) != Some(last) {
                match find_entry(after, k) {
                    Some(j) => {
                        assert(after[j] == before[j]);
                    },
                    None => {
                        assert(key_view(after[last].0) == k);
                    },
                }
            }
        },
    }
}

/// What a read gives back of a store: once a result is stored in an enabled cache,
/// reading the same task with the same dependencies and configuration hands that
/// result back while its lifetime lasts.
pub proof fn lemma_read_after_store(
    c0: CalculationCacheSystem,
    c1: CalculationCacheSystem,
    c2: CalculationCacheSystem,
    task_id: Seq<char>,
    deps: Seq<AdvancedDependency>,
    config: CalculationConfig,
    result: CalculationResult,
    stored_at: i64,
    read_at: i64,
    r1: Result<(), DomainError>,
    r2: Option<CalculationResult>,
)
    requires
        c0.settings().enabled,
        c0.settings().default_ttl matches Some(t) ==> read_at - stored_at <= t,
        c0.stored(c1, r1, task_id, deps, config, result, stored_at),
        c1.read(c2, r2, task_id, deps, config, read_at),
    ensures
        r1 is Ok,
        r2 == Some(result),
{
    let e1 = if c0.entries().len() >= c0.settings().max_size { evicted(c0.entries()) } else { c0.entries() };
    let k = key_for(task_id, deps, config, c0.version());
    lemma_filed_is_found(c1.entries(), e1, k, result, c0.version(), stored_at, c0.settings().default_ttl, deps);
}

/// After the items filed under a dependency are invalidated, no item is left under a
/// key filed there, so a read of such a key misses.
pub proof fn lemma_invalidated_key_is_gone(
    c0: CalculationCacheSystem,
    c1: CalculationCacheSystem,
    dependency_id: Seq<char>,
    now: i64,
    r: Result<usize, DomainError>,
    k: KeyView,
)
    requires
        c0.settings().enabled,
        keys_of(c0.index(), dependency_id).contains(k),
        c0.invalidated_by_dependency(c1, r, dependency_id, now),
    ensures
        find_entry(c1.entries(), k) is None,
{
    let ks = keys_of(c0.index(), dependency_id);
    let m = marked(c0.entries(), ks);
    let kept = m.filter(|en: CacheEntry| not_invalid(en));
    m.filter_lemma(|en: CacheEntry| not_invalid(en));
    lemma_find_entry_from(kept, k, 0);
    if find_entry(kept, k) is Some {
        let j = find_entry(kept, k)->0;
        assert(kept.contains(kept[j]));
        m.lemma_filter_contains_rev(|en: CacheEntry| not_invalid(en), kept[j]);
        let p = choose|p: int| 0 <= p < m.len() && m[p] == kept[j];
        assert(ks.contains(key_view(c0.entries()[p].0)));
    }
}

/// A refused read after invalidation: once a result is stored in an enabled cache and
/// the items resting on one of its dependencies are invalidated, reading the same task
/// with the same dependencies and configuration finds nothing.
pub proof fn lemma_read_after_invalidation(
    c0: CalculationCacheSystem,
    c1: CalculationCacheSystem,
    c2: CalculationCacheSystem,
    c3: CalculationCacheSystem,
    task_id: Seq<char>,
    deps: Seq<AdvancedDependency>,
    config: CalculationConfig,
    result: CalculationResult,
    x: int,
    times: (i64, i64, i64),
    r1: Result<(), DomainError>,
    r2: Result<usize, DomainError>,
    r3: Option<CalculationResult>,
)
    requires
        c0.settings().enabled,
        0 <= x < deps.len(),
        c0.stored(c1, r1, task_id, deps, config, result, times.0),
        c1.invalidated_by_dependency(c2, r2, deps[x].id@, times.1),
        c2.read(c3, r3, task_id, deps, config, times.2),
    ensures
        r3 is None,
{
    let k = key_for(task_id, deps, config, c0.version());
    lemma_with_keys_files(c0.index(), deps, k, x);
    lemma_invalidated_key_is_gone(c1, c2, deps[x].id@, times.1, r2, k);
}

/// After everything is invalidated in an enabled cache, every read finds nothing.
pub proof fn lemma_read_after_invalidate_all(
    c0: CalculationCacheSystem,
    c1: CalculationCacheSystem,
    c2: CalculationCacheSystem,
    task_id: Seq<char>,
    deps: Seq<AdvancedDependency>,
    config: CalculationConfig,
    times: (i64, i64),
    r1: Result<usize, DomainError>,
    r2: Option<CalculationResult>,
)
    requires
        c0.settings().enabled,
        c0.invalidated_all(c1, r1, times.0),
        c1.read(c2, r2, task_id, deps, config, times.1),
    ensures
        r2 is None,
{
}

/// A store files the key of the result under each of its dependencies.
pub proof fn lemma_with_keys_files(m: DependencyIndex, deps: Seq<AdvancedDependency>, k: KeyView, x: int)
    requires
        0 <= x < deps.len(),
    ensures
        keys_of(with_keys(m, deps, k), deps[x].id@).contains(k),
    decreases deps.len(),
{
    let m1 = with_keys(m, deps.drop_last(), k);
    let id = deps.last().id@;
    lemma_find_list_from(m1, id, 0);
    lemma_find_list_from(with_key(m1, id, k), deps[x].id@, 0);
    if x < deps.len() - 1 {
        lemma_with_keys_files(m, deps.drop_last(), k, x);
        lemma_find_list_from(m1, deps[x].id@, 0);
        if deps[x].id@ != id {
            assert(keys_of(with_key(m1, id, k), deps[x].id@) == keys_of(m1, deps[x].id@)) by {
                lemma_with_key_other(m1, id, k, deps[x].id@);
            }
        } else {
            lemma_with_key_same(m1, id, k);
        }
    } else {
        lemma_with_key_same(m1, id, k);
    }
}

/// The first position from `i` on whose list is filed under the identifier.
pub proof fn lemma_find_list_from(m: DependencyIndex, id: Seq<char>, i: int)
    requires
        0 <= i <= m.len(),
    ensures
        find_list_from(m, id, i) matches Some(j) ==> i <= j < m.len() && m[j].0 == id
            && forall|q: int| i <= q < j ==> (#[trigger] m[q]).0 != id,
        find_list_from(m, id, i) is None ==> forall|j: int| i <= j < m.len() ==> (#[trigger] m[j]).0 != id,
    decreases m.len() - i,
{
    if i < m.len() {
        lemma_find_list_from(m, id, i + 1);
    }
}

/// Filing a key under a dependency puts it among that dependency's keys.
pub proof fn lemma_with_key_same(m: DependencyIndex, id: Seq<char>, k: KeyView)
    ensures
        keys_of(with_key(m, id, k), id).contains(k),
{
    let m2 = with_key(m, id, k);
    lemma_find_list_from(m, id, 0);
    lemma_find_list_from(m2, id, 0);
    match find_list_from(m, id, 0) {
        Some(i) => {
            assert(m2[i].0 == id);
            assert(find_list_from(m2, id, 0) == Some(i));
            if !m[i].1.contains(k) {
                assert(m2[i].1.last() == k);
                assert(m2[i].1[m2[i].1.len() - 1] == k);
            }
        },
        None => {
            let last = m.len() as int;
            assert(m2[last].0 == id);
            assert(find_list_from(m2, id, 0) == Some(last));
            assert(m2[last].1[0] == k);
        },
    }
}

/// Filing a key under one dependency leaves the keys of another as they were.
pub proof fn lemma_with_key_other(m: DependencyIndex, id: Seq<char>, k: KeyView, other: Seq<char>)
    requires
        other != id,
    ensures
        keys_of(with_key(m, id, k), other) == keys_of(m, other),
{
    let m2 = with_key(m, id, k);
    lemma_find_list_from(m, other, 0);
    lemma_find_list_from(m2, other, 0);
    lemma_find_list_from(m, id, 0);
    match find_list_from(m, other, 0) {
        Some(j) => {
            assert(m2[j].0 == other);
            assert(find_list_from(m2, other, 0) == Some(j));
        },
        None => {
            if find_list_from(m2, other, 0) is Some {
                let j = find_list_from(m2, other, 0)->0;
                if j < m.len() {
                    assert(m2[j].0 == m[j].0);
                }
            }
        },
    }
}

} // verus!

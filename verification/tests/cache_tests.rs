use project_domain::dates::Date;
use project_domain::project_management::advanced_dependencies::{AdvancedDependency, DependencyType, LagType};
use project_domain::project_management::calculation_cache_system::{
    CacheConfig, CacheItem, CacheItemStatus, CalculationCacheSystem,
};
use project_domain::project_management::dependency_calculation_engine::{CalculationConfig, CalculationResult};

fn day(y: i32, m: u32, d: u32) -> Date {
    Date::from_ymd_opt(y, m, d).unwrap()
}

fn create_test_dependency() -> AdvancedDependency {
    AdvancedDependency::new(
        "task1".to_string(),
        "task2".to_string(),
        DependencyType::FinishToStart,
        LagType::zero(),
        "user1".to_string(),
        None,
    )
}

fn create_test_result() -> CalculationResult {
    CalculationResult {
        task_id: "task1".to_string(),
        calculated_start_date: Some(day(2024, 1, 1)),
        calculated_end_date: Some(day(2024, 1, 5)),
        is_critical: false,
        total_float: Some(0),
        free_float: None,
        dependencies_satisfied: true,
        calculation_order: 0,
    }
}

fn fixed_config() -> CalculationConfig {
    CalculationConfig {
        project_start_date: day(2024, 1, 1),
        default_task_duration: 1,
        working_days_only: false,
        working_hours_per_day: 8,
        cache_enabled: true,
    }
}

#[test]
fn test_cache_system_creation() {
    let cache = CalculationCacheSystem::with_default_config();
    assert_eq!(cache.get_stats().total_items, 0);
    // No read yet: the share of hits is zero.
    assert_eq!(cache.get_stats().hit_count, 0);
    assert_eq!(cache.get_stats().miss_count, 0);
}

#[test]
fn test_cache_put_and_get() {
    let mut cache = CalculationCacheSystem::with_default_config();
    let dependency = create_test_dependency();
    let result = create_test_result();
    let config = CalculationConfig::default();

    cache.put("task1", &vec![dependency.clone()], &config, result.clone()).unwrap();

    let retrieved = cache.get("task1", &vec![dependency], &config);
    assert!(retrieved.is_some());
    assert_eq!(retrieved.unwrap().task_id, "task1");
}

#[test]
fn test_cache_miss() {
    let mut cache = CalculationCacheSystem::with_default_config();
    let dependency = create_test_dependency();
    let config = CalculationConfig::default();

    let retrieved = cache.get("nonexistent", &vec![dependency], &config);
    assert!(retrieved.is_none());
    assert_eq!(cache.get_stats().miss_count, 1);
}

#[test]
fn test_cache_invalidation() {
    let mut cache = CalculationCacheSystem::with_default_config();
    let dependency = create_test_dependency();
    let result = create_test_result();
    let config = CalculationConfig::default();

    cache.put("task1", &vec![dependency.clone()], &config, result).unwrap();

    let invalidated = cache.invalidate_by_dependency(&dependency.id).unwrap();
    assert_eq!(invalidated, 1);

    let retrieved = cache.get("task1", &vec![dependency], &config);
    assert!(retrieved.is_none());
}

#[test]
fn test_cache_cleanup() {
    let mut cache = CalculationCacheSystem::with_default_config();
    let dependency = create_test_dependency();
    let result = create_test_result();
    let config = CalculationConfig::default();

    cache.put("task1", &vec![dependency], &config, result).unwrap();

    let cleaned = cache.cleanup().unwrap();
    assert_eq!(cleaned, 0);

    let invalidated = cache.invalidate_all().unwrap();
    assert_eq!(invalidated, 1);
}

#[test]
fn calculation_cache_system_test_cache_stats() {
    let mut cache = CalculationCacheSystem::with_default_config();
    let dependency = create_test_dependency();
    let result = create_test_result();
    let config = CalculationConfig::default();

    cache.put("task1", &vec![dependency.clone()], &config, result).unwrap();

    cache.get("task1", &vec![dependency], &config);

    let stats = cache.get_stats();
    assert_eq!(stats.total_items, 1);
    assert_eq!(stats.hit_count, 1);
    assert_eq!(stats.miss_count, 0);
    // Every read was a hit: the share of hits is one.
    assert_eq!(stats.hit_count, stats.hit_count + stats.miss_count);
}

#[test]
fn test_cache_config_update() {
    let mut cache = CalculationCacheSystem::with_default_config();
    let dependency = create_test_dependency();
    let result = create_test_result();
    let config = CalculationConfig::default();

    cache.put("task1", &vec![dependency.clone()], &config, result).unwrap();

    let mut new_config = cache.get_config().clone();
    new_config.enabled = false;
    cache.update_config(new_config);

    let retrieved = cache.get("task1", &vec![dependency], &config);
    assert!(retrieved.is_none());
}

#[test]
fn test_default_cache_config() {
    let c = CacheConfig::default();
    assert_eq!(c.max_size, 1000);
    assert_eq!(c.default_ttl, Some(3_600_000));
    assert_eq!(c.cleanup_interval, 1_800_000);
    assert!(c.enabled && c.auto_cleanup && !c.persistence_enabled);
}

#[test]
fn test_cache_item_life() {
    let mut item = CacheItem::new_at(7u32, 3, 1_000);
    assert_eq!(item.created_at, 1_000);
    assert_eq!(item.last_accessed, 1_000);
    assert_eq!(item.status, CacheItemStatus::Valid);
    assert!(!item.is_expired_at(10_000_000));
    item.ttl = Some(500);
    assert!(!item.is_expired_at(1_500));
    assert!(item.is_expired_at(1_501));
    item.touch_at(2_000);
    assert_eq!(item.last_accessed, 2_000);
    assert_eq!(item.access_count, 1);
    item.add_dependency("a".to_string());
    item.add_dependency("b".to_string());
    item.add_dependency("a".to_string());
    assert_eq!(item.dependencies, vec!["a".to_string(), "b".to_string()]);
    item.remove_dependency("a");
    assert_eq!(item.dependencies, vec!["b".to_string()]);
}

#[test]
fn test_cache_read_after_lifetime_misses() {
    let mut cache = CalculationCacheSystem::with_default_config();
    let deps = vec![create_test_dependency()];
    let config = fixed_config();
    cache.put_at("task1", &deps, &config, create_test_result(), 0).unwrap();
    assert_eq!(cache.get_at("task1", &deps, &config, 3_600_000).unwrap().task_id, "task1");
    assert!(cache.get_at("task1", &deps, &config, 3_600_001).is_none());
    assert_eq!(cache.get_stats().hit_count, 1);
    assert_eq!(cache.get_stats().miss_count, 1);
    // The expired item was made invalid; an invalidation sweep drops it.
    assert!(cache.get_at("task1", &deps, &config, 0).is_none());
    assert_eq!(cache.invalidate_by_task_at("task1", 0).unwrap(), 1);
    assert_eq!(cache.get_stats().total_items, 0);
}

#[test]
fn test_cache_evicts_least_recently_read() {
    let mut settings = CacheConfig::default();
    settings.max_size = 2;
    let mut cache = CalculationCacheSystem::new(settings);
    let deps = vec![create_test_dependency()];
    let config = fixed_config();
    cache.put_at("a", &deps, &config, create_test_result(), 10).unwrap();
    cache.put_at("b", &deps, &config, create_test_result(), 20).unwrap();
    assert!(cache.get_at("a", &deps, &config, 30).is_some());
    cache.put_at("c", &deps, &config, create_test_result(), 40).unwrap();
    assert_eq!(cache.get_stats().total_items, 2);
    assert!(cache.get_at("b", &deps, &config, 50).is_none());
    assert!(cache.get_at("a", &deps, &config, 50).is_some());
    assert!(cache.get_at("c", &deps, &config, 50).is_some());
    assert_eq!(cache.get_stats().oldest_item, Some(10));
    assert_eq!(cache.get_stats().newest_item, Some(40));
}

#[test]
fn test_cache_put_replaces_same_key() {
    let mut cache = CalculationCacheSystem::with_default_config();
    let deps = vec![create_test_dependency()];
    let config = fixed_config();
    let mut second = create_test_result();
    second.calculation_order = 9;
    cache.put_at("task1", &deps, &config, create_test_result(), 0).unwrap();
    cache.put_at("task1", &deps, &config, second, 5).unwrap();
    assert_eq!(cache.get_stats().total_items, 1);
    assert_eq!(cache.get_at("task1", &deps, &config, 6).unwrap().calculation_order, 9);
}

#[test]
fn test_cache_keys_depend_on_dependencies_and_config() {
    let mut cache = CalculationCacheSystem::with_default_config();
    let deps = vec![create_test_dependency()];
    let config = fixed_config();
    cache.put_at("task1", &deps, &config, create_test_result(), 0).unwrap();
    assert!(cache.get_at("task1", &vec![], &config, 1).is_none());
    let other = CalculationConfig { default_task_duration: 2, ..fixed_config() };
    assert!(cache.get_at("task1", &deps, &other, 1).is_none());
    assert!(cache.get_at("task1", &deps, &config, 1).is_some());
}

#[test]
fn test_cache_cleanup_after_interval() {
    let mut cache = CalculationCacheSystem::with_default_config();
    let deps = vec![create_test_dependency()];
    let config = fixed_config();
    // A moment far past the making of the cache, so that the interval has passed.
    let base = 4_000_000_000_000i64;
    cache.put_at("old", &deps, &config, create_test_result(), base).unwrap();
    cache.put_at("new", &deps, &config, create_test_result(), base + 3_000_000).unwrap();
    assert_eq!(cache.cleanup_at(base + 3_600_001).unwrap(), 1);
    assert_eq!(cache.get_stats().total_items, 1);
    assert!(cache.get_at("new", &deps, &config, base + 3_600_001).is_some());
    // Right after a cleanup the interval has not passed again.
    assert_eq!(cache.cleanup_at(base + 3_700_000).unwrap(), 0);
    assert_eq!(cache.invalidate_all_at(base + 9_000_000).unwrap(), 1);
    assert_eq!(cache.get_stats().total_items, 0);
    assert!(cache.get_at("new", &deps, &config, base + 9_000_001).is_none());
}

#[test]
fn test_cache_disabled_does_nothing() {
    let mut settings = CacheConfig::default();
    settings.enabled = false;
    let mut cache = CalculationCacheSystem::new(settings);
    let deps = vec![create_test_dependency()];
    let config = fixed_config();
    cache.put_at("task1", &deps, &config, create_test_result(), 0).unwrap();
    assert_eq!(cache.get_stats().total_items, 0);
    assert!(cache.get_at("task1", &deps, &config, 1).is_none());
    assert_eq!(cache.get_stats().miss_count, 0);
    assert_eq!(cache.invalidate_all().unwrap(), 0);
    assert_eq!(cache.cleanup().unwrap(), 0);
}

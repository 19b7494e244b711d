use file_organizer::cache::{model_config, CacheKey, ClassificationCache};
use file_organizer::classify::Classification;
use file_organizer::plan::{Action, FileRecord};
use file_organizer::run::Organizer;
use file_organizer::tier::Tier;

fn answer(category: &str) -> Classification {
    Classification {
        category: category.to_string(),
        subcategory: None,
        confidence: 800_000,
        suggested_path: category.to_string(),
        suggested_name: None,
        tags: vec!["t".to_string()],
        summary: Some("s".to_string()),
        reasoning: None,
        model_used: "m".to_string(),
        processing_time_ms: 3,
        tokens_used: 4,
        cost_micro_usd: 5,
    }
}

fn key(h: u64) -> CacheKey {
    CacheKey { content_hash: h, config: 0 }
}

#[test]
fn configs_differ_by_every_setting() {
    assert_eq!(model_config(false, false, Tier::Free), 0);
    assert_eq!(model_config(true, false, Tier::Free), 1);
    assert_eq!(model_config(false, true, Tier::Free), 2);
    assert_eq!(model_config(true, true, Tier::Pro), 7);
    assert_eq!(model_config(false, false, Tier::Enterprise), 8);
}

#[test]
fn hit_returns_the_stored_result() {
    let mut cache = ClassificationCache::new(2);
    assert!(cache.get(key(1)).is_none());
    cache.put(key(1), answer("Notes"));
    let hit = cache.get(key(1)).unwrap();
    assert_eq!(hit.category, "Notes");
    assert_eq!(hit.tags, vec!["t".to_string()]);
    assert_eq!(hit.summary.as_deref(), Some("s"));
    assert!(cache.get(CacheKey { content_hash: 1, config: 2 }).is_none());
}

#[test]
fn least_recently_used_leaves_first() {
    let mut cache = ClassificationCache::new(2);
    cache.put(key(1), answer("One"));
    cache.put(key(2), answer("Two"));
    assert!(cache.get(key(1)).is_some());
    cache.put(key(3), answer("Three"));
    assert!(cache.get(key(2)).is_none());
    assert_eq!(cache.get(key(1)).unwrap().category, "One");
    assert_eq!(cache.get(key(3)).unwrap().category, "Three");
}

#[test]
fn put_replaces_an_entry() {
    let mut cache = ClassificationCache::new(2);
    cache.put(key(1), answer("Old"));
    cache.put(key(2), answer("Two"));
    cache.put(key(1), answer("New"));
    cache.put(key(3), answer("Three"));
    assert_eq!(cache.get(key(1)).unwrap().category, "New");
    assert!(cache.get(key(2)).is_none());
}

#[test]
fn one_classification_in_flight_per_key() {
    let mut cache = ClassificationCache::new(1);
    assert!(cache.begin(key(1)));
    assert!(!cache.begin(key(1)));
    assert!(cache.begin(key(2)));
    cache.finish(key(1));
    assert!(cache.begin(key(1)));
}

#[test]
fn cached_results_cost_no_call() {
    let files: Vec<FileRecord> = (0..30)
        .map(|i| FileRecord {
            path: format!("f{}.txt", i),
            name: format!("f{}.txt", i),
            size: 1,
            modified: "Unknown".to_string(),
            category: None,
        })
        .collect();
    let mut run = Organizer::new(files, Tier::Free);
    let mut k = 0;
    while let Some(i) = run.next_file() {
        assert_eq!(i, k);
        if i % 2 == 0 {
            run.record_cached(answer("Notes"));
        } else {
            run.record(Ok(answer("Notes")));
        }
        k += 1;
    }
    assert_eq!(run.calls_made(), 15);
    let plan = run.plan();
    assert!(plan.iter().all(|e| matches!(e.action, Action::Move(_))));
}

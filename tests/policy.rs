use file_organizer::classify::{Classification, FileError, CONFIDENCE_SCALE};
use file_organizer::ensemble::combine;
use file_organizer::retry::{retry_delay, BASE_DELAY_MS, MAX_ATTEMPTS};

fn vote(category: &str, folder: &str, confidence: u32, tokens: u32, cost: u64, time: u32) -> Classification {
    Classification {
        category: category.to_string(),
        subcategory: None,
        confidence,
        suggested_path: folder.to_string(),
        suggested_name: None,
        tags: vec![category.to_lowercase()],
        summary: None,
        reasoning: Some(format!("{} model", category)),
        model_used: format!("model-{}", category),
        processing_time_ms: time,
        tokens_used: tokens,
        cost_micro_usd: cost,
    }
}

#[test]
fn majority_category_wins() {
    let rs = vec![
        vote("Photos", "Photos", 600_000, 10, 100, 30),
        vote("Taxes", "Documents/Taxes", 900_000, 20, 200, 50),
        vote("Taxes", "Documents/Taxes", 700_000, 30, 300, 40),
    ];
    let c = combine(&rs).unwrap();
    assert_eq!(c.category, "Taxes");
    assert_eq!(c.suggested_path, "Documents/Taxes");
    assert_eq!(c.model_used, "model-Taxes");
    assert_eq!(c.tags, vec!["taxes".to_string()]);
    assert_eq!(c.confidence, (900_000 + 700_000) / 3);
    assert_eq!(c.tokens_used, 60);
    assert_eq!(c.cost_micro_usd, 600);
    assert_eq!(c.processing_time_ms, 50);
}

#[test]
fn tie_goes_to_the_earliest() {
    let rs = vec![
        vote("Photos", "Photos", 400_000, 1, 1, 1),
        vote("Taxes", "Documents/Taxes", 900_000, 1, 1, 1),
    ];
    let c = combine(&rs).unwrap();
    assert_eq!(c.category, "Photos");
    assert_eq!(c.confidence, 200_000);
}

#[test]
fn unanimous_keeps_confidence_and_single_is_itself() {
    let rs = vec![vote("Notes", "Notes", CONFIDENCE_SCALE, 5, 7, 9), vote("Notes", "Notes", CONFIDENCE_SCALE, 5, 7, 9)];
    let c = combine(&rs).unwrap();
    assert_eq!(c.confidence, CONFIDENCE_SCALE);
    let one = combine(&vec![vote("Notes", "Notes", 123_456, 5, 7, 9)]).unwrap();
    assert_eq!(one.confidence, 123_456);
    assert_eq!(one.tokens_used, 5);
    assert!(combine(&Vec::new()).is_none());
}

#[test]
fn sums_stop_at_the_largest_value() {
    let rs = vec![
        vote("Notes", "Notes", 1, u32::MAX, u64::MAX, 1),
        vote("Notes", "Notes", 1, 10, 10, 2),
    ];
    let c = combine(&rs).unwrap();
    assert_eq!(c.tokens_used, u32::MAX);
    assert_eq!(c.cost_micro_usd, u64::MAX);
}

#[test]
fn model_errors_are_retried_with_doubling_pauses() {
    assert_eq!(MAX_ATTEMPTS, 3);
    assert_eq!(retry_delay(FileError::Model, 1), Some(BASE_DELAY_MS));
    assert_eq!(retry_delay(FileError::Model, 2), Some(2 * BASE_DELAY_MS));
    assert_eq!(retry_delay(FileError::Model, 3), None);
    assert_eq!(retry_delay(FileError::Model, 0), None);
}

#[test]
fn other_errors_are_final() {
    assert_eq!(retry_delay(FileError::Io, 1), None);
    assert_eq!(retry_delay(FileError::Parse, 1), None);
    assert_eq!(retry_delay(FileError::OutsideRoot, 1), None);
}

use file_organizer::classify::{Classification, FileError, CONFIDENCE_SCALE};
use file_organizer::plan::{build_plan, Action, FileRecord, Outcome, PlanEntry};
use file_organizer::report::{execution_report, moves_to_perform, Status};
use file_organizer::run::{outcome_for, Organizer};
use file_organizer::tier::Tier;

fn record(path: &str) -> FileRecord {
    let name = path.rsplit('/').next().unwrap().to_string();
    FileRecord {
        path: path.to_string(),
        name,
        size: 10,
        modified: "Unknown".to_string(),
        category: None,
    }
}

fn result(category: &str, folder: &str, confidence: u32) -> Classification {
    Classification {
        category: category.to_string(),
        subcategory: None,
        confidence,
        suggested_path: folder.to_string(),
        suggested_name: None,
        tags: vec![],
        summary: None,
        reasoning: None,
        model_used: "local".to_string(),
        processing_time_ms: 5,
        tokens_used: 0,
        cost_micro_usd: 0,
    }
}

fn placed(s: &str) -> Outcome {
    Outcome::Placed(s.to_string())
}

fn move_to(e: &PlanEntry) -> Option<String> {
    match &e.action {
        Action::Move(d) => Some(d.clone()),
        _ => None,
    }
}

fn run_all(files: Vec<FileRecord>, tier: Tier, answers: Vec<Result<Classification, FileError>>) -> (Organizer, usize) {
    let mut run = Organizer::new(files, tier);
    let mut calls = 0;
    let mut answers = answers.into_iter();
    while let Some(k) = run.next_file() {
        assert_eq!(k, calls);
        run.record(answers.next().unwrap());
        calls += 1;
    }
    (run, calls)
}

#[test]
fn tax_document_and_vacation_photo() {
    let files = vec![record("a.pdf"), record("b.jpg")];
    let answers = vec![
        Ok(result("Taxes", "Documents/Taxes", 900_000)),
        Ok(result("Vacation", "Photos/Vacation", 850_000)),
    ];
    let (run, calls) = run_all(files, Tier::Free, answers);
    assert_eq!(calls, 2);
    let plan = run.plan();
    assert_eq!(plan.len(), 2);
    assert_eq!(move_to(&plan[0]).as_deref(), Some("Documents/Taxes/a.pdf"));
    assert_eq!(move_to(&plan[1]).as_deref(), Some("Photos/Vacation/b.jpg"));

    assert!(moves_to_perform(&plan, true, true).is_empty());
    assert!(moves_to_perform(&plan, false, false).is_empty());
    let moves = moves_to_perform(&plan, false, true);
    assert_eq!(moves.len(), 2);
    assert_eq!(moves[0].from, "a.pdf");
    assert_eq!(moves[0].to, "Documents/Taxes/a.pdf");
    assert_eq!(moves[1].from, "b.jpg");
    assert_eq!(moves[1].to, "Photos/Vacation/b.jpg");

    let report = execution_report(&plan, &vec![true, true]);
    assert_eq!(report[0].status, Status::Moved);
    assert_eq!(report[0].destination, "Documents/Taxes/a.pdf");
    assert_eq!(report[1].status, Status::Moved);
    assert_eq!(report[1].destination, "Photos/Vacation/b.jpg");
}

#[test]
fn second_run_after_moving_plans_nothing() {
    let files = vec![record("Documents/Taxes/a.pdf"), record("Photos/Vacation/b.jpg")];
    let answers = vec![
        Ok(result("Taxes", "Documents/Taxes", 900_000)),
        Ok(result("Vacation", "Photos/Vacation", 850_000)),
    ];
    let (run, _) = run_all(files, Tier::Pro, answers);
    let plan = run.plan();
    assert!(plan.iter().all(|e| matches!(e.action, Action::Keep)));
    assert!(moves_to_perform(&plan, false, true).is_empty());
}

#[test]
fn colliding_targets_get_numbered_names() {
    let files = vec![record("x/a.pdf"), record("y/a.pdf"), record("z/a.pdf")];
    let outcomes = vec![placed("Docs/a.pdf"), placed("Docs/a.pdf"), placed("Docs/a.pdf")];
    let plan = build_plan(&files, &outcomes, false);
    assert_eq!(move_to(&plan[0]).as_deref(), Some("Docs/a.pdf"));
    assert_eq!(move_to(&plan[1]).as_deref(), Some("Docs/a (1).pdf"));
    assert_eq!(move_to(&plan[2]).as_deref(), Some("Docs/a (2).pdf"));
}

#[test]
fn target_held_by_another_file_is_not_overwritten() {
    let files = vec![record("Docs/a.pdf"), record("inbox/a.pdf")];
    let outcomes = vec![placed("Other/a.pdf"), placed("Docs/a.pdf")];
    let plan = build_plan(&files, &outcomes, false);
    assert_eq!(move_to(&plan[0]).as_deref(), Some("Other/a.pdf"));
    assert_eq!(move_to(&plan[1]).as_deref(), Some("Docs/a (1).pdf"));
}

#[test]
fn suffixed_file_stays_on_the_next_run() {
    let files = vec![record("Docs/a.pdf"), record("Docs/a (1).pdf")];
    let outcomes = vec![placed("Docs/a.pdf"), placed("Docs/a.pdf")];
    let plan = build_plan(&files, &outcomes, false);
    assert!(matches!(plan[0].action, Action::Keep));
    assert!(matches!(plan[1].action, Action::Keep));
}

#[test]
fn numbering_goes_past_nine() {
    let mut files = Vec::new();
    let mut outcomes = Vec::new();
    for i in 0..12 {
        files.push(record(&format!("in{}/notes", i)));
        outcomes.push(placed("Notes/notes"));
    }
    let plan = build_plan(&files, &outcomes, false);
    assert_eq!(move_to(&plan[0]).as_deref(), Some("Notes/notes"));
    assert_eq!(move_to(&plan[9]).as_deref(), Some("Notes/notes (9)"));
    assert_eq!(move_to(&plan[10]).as_deref(), Some("Notes/notes (10)"));
    assert_eq!(move_to(&plan[11]).as_deref(), Some("Notes/notes (11)"));
}

#[test]
fn suffix_goes_before_the_last_extension_of_the_last_component() {
    let files = vec![record("p/x.tar.gz"), record("q/x.tar.gz"), record("p/.bashrc"), record("q/.bashrc"), record("r/v1.0/readme"), record("s/readme")];
    let outcomes = vec![
        placed("A/x.tar.gz"),
        placed("A/x.tar.gz"),
        placed("B/.bashrc"),
        placed("B/.bashrc"),
        placed("v1.0/readme"),
        placed("v1.0/readme"),
    ];
    let plan = build_plan(&files, &outcomes, false);
    assert_eq!(move_to(&plan[1]).as_deref(), Some("A/x.tar (1).gz"));
    assert_eq!(move_to(&plan[3]).as_deref(), Some("B/.bashrc (1)"));
    assert_eq!(move_to(&plan[5]).as_deref(), Some("v1.0/readme (1)"));
}

#[test]
fn one_model_error_affects_one_file() {
    let files: Vec<FileRecord> = (0..5).map(|i| record(&format!("f{}.txt", i))).collect();
    let answers: Vec<Result<Classification, FileError>> = (0..5)
        .map(|i| if i == 2 { Err(FileError::Model) } else { Ok(result("Notes", "Notes", 500_000)) })
        .collect();
    let (run, calls) = run_all(files, Tier::Free, answers);
    assert_eq!(calls, 5);
    let plan = run.plan();
    let failed: Vec<usize> = (0..5).filter(|&i| matches!(plan[i].action, Action::Failed(_))).collect();
    assert_eq!(failed, vec![2]);
    assert!(matches!(plan[2].action, Action::Failed(FileError::Model)));
    assert_eq!(plan[2].source, "f2.txt");
    for i in [0usize, 1, 3, 4] {
        assert_eq!(move_to(&plan[i]), Some(format!("Notes/f{}.txt", i)));
    }
    let report = execution_report(&plan, &vec![true; 5]);
    assert_eq!(report.iter().filter(|e| e.status == Status::Moved).count(), 4);
    assert_eq!(report[2].status, Status::Failed(FileError::Model));
    assert_eq!(report[2].destination, "f2.txt");
}

#[test]
fn budget_stops_classification_and_skips_the_rest() {
    let files: Vec<FileRecord> = (0..30).map(|i| record(&format!("f{}.txt", i))).collect();
    let answers: Vec<Result<Classification, FileError>> =
        (0..30).map(|_| Ok(result("Notes", "Notes", 500_000))).collect();
    let (run, calls) = run_all(files, Tier::Free, answers);
    assert_eq!(Tier::Free.call_budget(), 25);
    assert_eq!(calls, 25);
    assert_eq!(run.calls_made(), 25);
    assert_eq!(run.next_file(), None);
    let plan = run.plan();
    assert_eq!(plan.len(), 30);
    for i in 0..25 {
        assert!(matches!(plan[i].action, Action::Move(_)));
    }
    for i in 25..30 {
        assert!(matches!(plan[i].action, Action::SkippedByBudget));
    }
    let report = execution_report(&plan, &vec![true; 30]);
    assert_eq!(report[29].status, Status::SkippedByBudget);
}

#[test]
fn failed_move_is_reported_and_the_file_stays() {
    let files = vec![record("a.pdf"), record("b.pdf")];
    let plan = build_plan(&files, &vec![placed("D/a.pdf"), placed("D/b.pdf")], false);
    let report = execution_report(&plan, &vec![false, true]);
    assert_eq!(report[0].status, Status::Failed(FileError::Io));
    assert_eq!(report[0].destination, "a.pdf");
    assert_eq!(report[1].status, Status::Moved);
    assert_eq!(report[1].destination, "D/b.pdf");
}

#[test]
fn malformed_and_escaping_answers_fail_their_file() {
    let over = outcome_for(Ok(result("Notes", "Notes", CONFIDENCE_SCALE + 1)), "a.txt");
    assert!(matches!(over, Outcome::Failed(FileError::Parse)));
    let empty = outcome_for(Ok(result("", "Notes", 10)), "a.txt");
    assert!(matches!(empty, Outcome::Failed(FileError::Parse)));
    let up = outcome_for(Ok(result("Notes", "../Notes", 10)), "a.txt");
    assert!(matches!(up, Outcome::Failed(FileError::OutsideRoot)));
    let abs = outcome_for(Ok(result("Notes", "/etc", 10)), "a.txt");
    assert!(matches!(abs, Outcome::Failed(FileError::OutsideRoot)));
    let dots = outcome_for(Ok(result("Notes", "a..b", 10)), "a.txt");
    assert!(matches!(dots, Outcome::Placed(ref p) if p == "a..b/a.txt"));
    let io = outcome_for(Err(FileError::Io), "a.txt");
    assert!(matches!(io, Outcome::Failed(FileError::Io)));
}

#[test]
fn keep_when_already_in_place() {
    let files = vec![record("Notes/a.txt")];
    let plan = build_plan(&files, &vec![placed("Notes/a.txt")], false);
    assert!(matches!(plan[0].action, Action::Keep));
    let report = execution_report(&plan, &vec![false]);
    assert_eq!(report[0].status, Status::Kept);
}

#[test]
fn cancelled_run_stops_and_reports_the_rest_as_cancelled() {
    let files: Vec<FileRecord> = (0..4).map(|i| record(&format!("f{}.txt", i))).collect();
    let mut run = Organizer::new(files, Tier::Pro);
    run.record(Ok(result("Notes", "Notes", 500_000)));
    run.cancel();
    assert_eq!(run.next_file(), None);
    assert_eq!(run.calls_made(), 1);
    let plan = run.plan();
    assert_eq!(move_to(&plan[0]).as_deref(), Some("Notes/f0.txt"));
    for i in 1..4 {
        assert!(matches!(plan[i].action, Action::Cancelled));
    }
    let report = execution_report(&plan, &vec![true; 4]);
    assert_eq!(report[0].status, Status::Moved);
    assert_eq!(report[3].status, Status::Cancelled);
    assert_eq!(report[3].destination, "f3.txt");
}

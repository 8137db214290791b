//! End-to-end tests of the submission-tracking service: registration,
//! submission, progress views, admin data, and the client-side helpers.

use cargo_course::catalog::{exercise_stem, parse_exercise_docs, select_exercise_files};
use cargo_course::cli::{
    extract_exercise_name, submit_failure_kind, summarize_batch, SubmissionOutcome, SubmitFailure,
};
use cargo_course::admin::{participant_summaries, recent_submissions};
use cargo_course::service::{self, ApiError};
use cargo_course::store::Store;
use cargo_course::types::{Name, SubmissionRequest, Token, ValidationError};

fn sample_catalog() -> Vec<String> {
    vec![
        "00_hello_rust".to_string(),
        "01_integer_handling".to_string(),
        "02_enums_and_matching".to_string(),
    ]
}

fn request(ulid: &str, exercise: &str, tests: bool, clippy: bool, fmt: bool) -> SubmissionRequest {
    SubmissionRequest {
        ulid: ulid.to_string(),
        exercise_name: exercise.to_string(),
        source_code: "fn main() {}".to_string(),
        tests_passed: tests,
        clippy_passed: clippy,
        fmt_passed: fmt,
    }
}

#[test]
fn test_name_validation_rules() {
    assert_eq!(Name::parse("Alice").unwrap().as_str(), "Alice");
    assert_eq!(Name::parse("  Bob  ").unwrap().as_str(), "Bob");
    assert_eq!(Name::parse("").unwrap_err(), ValidationError::Empty);
    assert_eq!(Name::parse("   \t ").unwrap_err(), ValidationError::Empty);
    let exactly_100 = "x".repeat(100);
    assert_eq!(Name::parse(&exactly_100).unwrap().as_str(), exactly_100);
    let too_long = "x".repeat(101);
    assert_eq!(Name::parse(&too_long).unwrap_err(), ValidationError::TooLong);
    // multi-byte characters count once each
    let hundred_umlauts = "\u{e9}".repeat(100);
    assert!(Name::parse(&hundred_umlauts).is_ok());
}

#[test]
fn test_token_handling() {
    let token = Token::new("01ARZ3NDEKTSV4RRFFQ69G5FAV".to_string());
    assert_eq!(token.as_str(), "01ARZ3NDEKTSV4RRFFQ69G5FAV");
    let parsed = Token::parse("  01ARZ3NDEKTSV4RRFFQ69G5FAV\n").unwrap();
    assert_eq!(parsed.as_str(), "01ARZ3NDEKTSV4RRFFQ69G5FAV");
    assert_eq!(Token::parse("   ").unwrap_err(), ValidationError::Empty);
}

#[test]
fn test_register_mints_identifier() {
    let mut store = Store::new();
    let resp = service::register(&mut store, "Alice", 0).unwrap();
    assert_eq!(resp.ulid.chars().count(), 26);
    assert!(store.participant_exists(&resp.ulid));
    assert!(!store.participant_exists("somebody-else"));
}

#[test]
fn test_register_rejects_bad_names() {
    let mut store = Store::new();
    let err = service::register(&mut store, "   ", 0).unwrap_err();
    assert_eq!(err, ApiError::Validation(ValidationError::Empty));
    assert_eq!(err.status_code(), 400);
    let long = "x".repeat(200);
    let err = service::register(&mut store, &long, 0).unwrap_err();
    assert_eq!(err, ApiError::Validation(ValidationError::TooLong));
    let stats = store.admin_stats();
    assert_eq!(stats.total_participants, 0);
}

#[test]
fn test_submit_before_register_writes_nothing() {
    let mut store = Store::new();
    let req = request("01UNREGISTERED00000000000", "00_hello_rust", true, true, true);
    let err = service::submit(&mut store, &req, 5).unwrap_err();
    assert_eq!(err, ApiError::Unauthorized);
    assert_eq!(err.status_code(), 401);
    let stats = store.user_stats(&req.ulid);
    assert_eq!(stats.total_submissions, 0);
    let admin = store.admin_stats();
    assert_eq!(admin.total_submissions, 0);
}

#[test]
fn test_completed_but_not_perfected() {
    let mut store = Store::new();
    let catalog = sample_catalog();
    let resp = service::register(&mut store, "Alice", 0).unwrap();
    let req = request(&resp.ulid, "00_hello_rust", true, false, false);
    service::submit(&mut store, &req, 1).unwrap();
    let view = service::get_status(&store, &catalog, &resp.ulid);
    assert_eq!(view.exercises.len(), 3);
    assert_eq!(view.exercises[0].name, "00_hello_rust");
    assert!(view.exercises[0].completed);
    assert!(!view.exercises[0].perfected);
    assert!(!view.exercises[1].completed);
}

#[test]
fn test_resubmission_overwrites() {
    let mut store = Store::new();
    let catalog = sample_catalog();
    let resp = service::register(&mut store, "Alice", 0).unwrap();
    service::submit(&mut store, &request(&resp.ulid, "00_hello_rust", true, false, false), 1)
        .unwrap();
    service::submit(&mut store, &request(&resp.ulid, "00_hello_rust", true, true, true), 2)
        .unwrap();
    let view = service::get_status(&store, &catalog, &resp.ulid);
    assert!(view.exercises[0].completed);
    assert!(view.exercises[0].perfected);
    // exactly one row exists for the pair
    let stats = store.user_stats(&resp.ulid);
    assert_eq!(stats.total_submissions, 1);
    assert_eq!(stats.completed_count, 1);
    assert_eq!(stats.perfected_count, 1);
}

#[test]
fn test_regression_is_representable() {
    let mut store = Store::new();
    let catalog = sample_catalog();
    let resp = service::register(&mut store, "Alice", 0).unwrap();
    service::submit(&mut store, &request(&resp.ulid, "00_hello_rust", true, true, true), 1)
        .unwrap();
    service::submit(&mut store, &request(&resp.ulid, "00_hello_rust", false, false, false), 2)
        .unwrap();
    let view = service::get_status(&store, &catalog, &resp.ulid);
    assert!(!view.exercises[0].completed);
    assert!(!view.exercises[0].perfected);
    let stats = store.user_stats(&resp.ulid);
    assert_eq!(stats.total_submissions, 1);
    assert_eq!(stats.completed_count, 0);
}

#[test]
fn test_failed_tests_store_a_row_but_no_completion() {
    let mut store = Store::new();
    let catalog = sample_catalog();
    let resp = service::register(&mut store, "Alice", 0).unwrap();
    service::submit(&mut store, &request(&resp.ulid, "00_hello_rust", false, true, true), 1)
        .unwrap();
    let view = service::get_status(&store, &catalog, &resp.ulid);
    assert!(!view.exercises[0].completed);
    let stats = store.user_stats(&resp.ulid);
    assert_eq!(stats.total_submissions, 1);
    assert_eq!(stats.completed_count, 0);
}

#[test]
fn test_status_for_unregistered_id() {
    let mut store = Store::new();
    let catalog = sample_catalog();
    let resp = service::register(&mut store, "Alice", 0).unwrap();
    service::submit(&mut store, &request(&resp.ulid, "00_hello_rust", true, true, true), 1)
        .unwrap();
    // a guessed, unregistered identifier still gets a full view
    let view = service::get_status(&store, &catalog, "01GUESSED0000000000000000");
    assert_eq!(view.exercises.len(), 3);
    for entry in &view.exercises {
        assert!(!entry.completed);
        assert!(!entry.perfected);
    }
}

#[test]
fn test_orphan_submission_invisible_in_status() {
    let mut store = Store::new();
    let catalog = sample_catalog();
    let resp = service::register(&mut store, "Alice", 0).unwrap();
    service::submit(&mut store, &request(&resp.ulid, "99_no_such_exercise", true, true, true), 1)
        .unwrap();
    let view = service::get_status(&store, &catalog, &resp.ulid);
    assert_eq!(view.exercises.len(), 3);
    for entry in &view.exercises {
        assert!(!entry.completed);
    }
    // the row is stored all the same
    let stats = store.user_stats(&resp.ulid);
    assert_eq!(stats.total_submissions, 1);
}

#[test]
fn test_progress_order_follows_catalog() {
    let mut store = Store::new();
    let catalog = sample_catalog();
    let resp = service::register(&mut store, "Alice", 0).unwrap();
    // submit in reverse catalog order
    service::submit(&mut store, &request(&resp.ulid, "02_enums_and_matching", true, false, false), 1)
        .unwrap();
    service::submit(&mut store, &request(&resp.ulid, "00_hello_rust", true, false, false), 2)
        .unwrap();
    let view = service::get_status(&store, &catalog, &resp.ulid);
    let names: Vec<&str> = view.exercises.iter().map(|e| e.name.as_str()).collect();
    assert_eq!(names, vec!["00_hello_rust", "01_integer_handling", "02_enums_and_matching"]);
    assert!(view.exercises[0].completed);
    assert!(!view.exercises[1].completed);
    assert!(view.exercises[2].completed);
}

#[test]
fn test_admin_dashboard_gate_and_counts() {
    let mut store = Store::new();
    let resp = service::register(&mut store, "Alice", 0).unwrap();
    let other = service::register(&mut store, "Bob", 0).unwrap();
    service::submit(&mut store, &request(&resp.ulid, "00_hello_rust", true, true, true), 1)
        .unwrap();
    service::submit(&mut store, &request(&other.ulid, "00_hello_rust", true, false, false), 2)
        .unwrap();
    service::submit(&mut store, &request(&other.ulid, "01_integer_handling", false, false, false), 3)
        .unwrap();

    let err = service::admin_view(&store, "wrong", "dashboard-token").unwrap_err();
    assert_eq!(err, ApiError::Forbidden);
    assert_eq!(err.status_code(), 403);

    let stats = service::admin_view(&store, "dashboard-token", "dashboard-token").unwrap();
    assert_eq!(stats.total_participants, 2);
    assert_eq!(stats.total_submissions, 2);
    assert_eq!(stats.total_perfected, 1);
}

#[test]
fn test_select_exercise_files_filters_and_sorts() {
    let names = vec![
        "10_iterators.rs".to_string(),
        "README.md".to_string(),
        "_helper.rs".to_string(),
        "00_hello_rust.rs".to_string(),
        "05_tuples.rs".to_string(),
    ];
    let picked = select_exercise_files(names);
    assert_eq!(
        picked,
        vec![
            "00_hello_rust.rs".to_string(),
            "05_tuples.rs".to_string(),
            "10_iterators.rs".to_string(),
        ]
    );
    assert_eq!(exercise_stem("00_hello_rust.rs"), "00_hello_rust");
}

#[test]
fn test_parse_exercise_docs_reads_title_and_description() {
    let content = "//! # String Formatting\n//!\n//! Learn to format strings.\n//! It matters.\n\nfn main() {}\n";
    let (title, description) = parse_exercise_docs(content, "fallback_name");
    assert_eq!(title, "String Formatting");
    assert_eq!(description, "Learn to format strings. It matters.");
}

#[test]
fn test_parse_exercise_docs_falls_back() {
    let content = "fn main() {}\n";
    let (title, description) = parse_exercise_docs(content, "02_enums_and_matching");
    assert_eq!(title, "02_enums_and_matching");
    assert_eq!(description, "");
}

#[test]
fn test_extract_exercise_name_from_paths() {
    assert_eq!(extract_exercise_name("examples/01_strings.rs").unwrap(), "01_strings");
    assert_eq!(extract_exercise_name("01_strings.rs").unwrap(), "01_strings");
    assert!(extract_exercise_name("examples/notes.txt").is_err());
    assert!(extract_exercise_name("examples/").is_err());
}

#[test]
fn test_submit_failure_kinds() {
    assert_eq!(submit_failure_kind(401), SubmitFailure::InvalidToken);
    assert_eq!(submit_failure_kind(400), SubmitFailure::BadData);
    assert_eq!(submit_failure_kind(500), SubmitFailure::Other);
}

#[test]
fn test_batch_summary_counts() {
    let outcomes = vec![
        SubmissionOutcome { ok: true, exercise: "00_hello_rust".to_string() },
        SubmissionOutcome { ok: false, exercise: "05_tuples".to_string() },
        SubmissionOutcome { ok: true, exercise: "10_iterators".to_string() },
    ];
    let summary = summarize_batch(outcomes);
    assert_eq!(summary.succeeded, 2);
    assert_eq!(summary.failed, vec!["05_tuples".to_string()]);
}

#[test]
fn test_participant_summaries_report_counts() {
    let mut store = Store::new();
    let alice = service::register(&mut store, "Alice", 0).unwrap();
    let bob = service::register(&mut store, "Bob", 0).unwrap();
    service::submit(&mut store, &request(&alice.ulid, "00_hello_rust", true, true, true), 10)
        .unwrap();
    service::submit(&mut store, &request(&alice.ulid, "05_tuples", true, false, false), 12)
        .unwrap();
    service::submit(&mut store, &request(&bob.ulid, "00_hello_rust", false, false, false), 11)
        .unwrap();

    let lines = participant_summaries(&store, 15);
    assert_eq!(lines.len(), 2);
    let alice_line = lines.iter().find(|l| l.name == "Alice").unwrap();
    assert_eq!(alice_line.completed_count, 2);
    assert_eq!(alice_line.total_exercises, 15);
    assert_eq!(alice_line.last_activity, Some(12));
    let bob_line = lines.iter().find(|l| l.name == "Bob").unwrap();
    assert_eq!(bob_line.completed_count, 0);
    assert_eq!(bob_line.last_activity, Some(11));

    let recent = recent_submissions(&store, 2);
    assert_eq!(recent.len(), 2);
    assert_eq!(recent[0].exercise_name, "05_tuples");
    assert_eq!(recent[0].participant_name, "Alice");
    assert!(recent[0].submitted_at >= recent[1].submitted_at);
}

#[test]
fn test_validation_messages() {
    assert_eq!(ValidationError::Empty.message(), "Name cannot be empty");
    assert_eq!(ValidationError::TooLong.message(), "Name too long (max 100 characters)");
    assert_eq!(ValidationError::Empty.token_message(), "Token cannot be empty");
}

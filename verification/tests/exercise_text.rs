//! Tests for the string-processing exercises: extraction, results,
//! ownership, word counting, configuration and iterator patterns.

use cargo_course::exercises::email_extractor::extract_emails;
use cargo_course::exercises::result_handling::{parse_port, read_config_file, validate_email};
use cargo_course::exercises::ownership_basics::{borrow_string, mutate_string, take_ownership};
use cargo_course::exercises::word_counter_basic::word_count;
use cargo_course::exercises::config_parser::parse_config;
use cargo_course::exercises::iterator_patterns::{
    calculate_total_revenue, filter_active_users, find_rust_files, normalize_emails,
};

#[test]
fn test_extract_emails() {
    let text = "Contact us at info@company.com or support@example.org for help";
    let emails = extract_emails(text);
    assert_eq!(emails, vec!["info@company.com", "support@example.org"]);
}

#[test]
fn test_port_parsing() {
    assert_eq!(parse_port("8080"), Ok(8080));
    assert_eq!(parse_port("80"), Ok(80));
    assert!(parse_port("0").is_err());
    assert!(parse_port("99999").is_err());
    assert!(parse_port("invalid").is_err());
}

#[test]
fn test_config_reading() {
    assert_eq!(read_config_file("app.toml"), Ok("config content".to_string()));
    assert!(read_config_file("").is_err());
}

#[test]
fn test_email_validation() {
    assert_eq!(validate_email("user@example.com"), Ok("user@example.com"));
    assert!(validate_email("invalid-email").is_err());
}

#[test]
fn test_ownership() {
    let s = String::from("Rust");
    let result = take_ownership(s);
    // Note: s is no longer valid here! It was moved.
    assert_eq!(result, "Rust - owned by Rust!");
}

#[test]
fn test_borrowing() {
    let s = "The Matrix has you";
    let len = borrow_string(s);
    // s is still valid here because we only borrowed it
    assert_eq!(len, 18);
    assert_eq!(s, "The Matrix has you"); // Still here!
}

#[test]
fn test_mutable_borrow() {
    let mut s = String::from("Ferris");
    mutate_string(&mut s);
    assert_eq!(s, "Ferris - now with 100% more crab!");
}

#[test]
fn test_word_count() {
    let text = "hello world hello rust world";
    let counts = word_count(text);
    assert_eq!(counts.get("hello"), Some(&2));
    assert_eq!(counts.get("world"), Some(&2));
    assert_eq!(counts.get("rust"), Some(&1));
}

#[test]
fn test_parse_config() {
    let config = parse_config("host=localhost,port=8080,timeout=30").unwrap();
    assert_eq!(config.host, "localhost");
    assert_eq!(config.port, 8080);
    assert_eq!(config.timeout, 30);

    assert!(parse_config("host=localhost,port=99999,timeout=30").is_err());
}

#[test]
fn test_parse_config_missing_field() {
    assert!(parse_config("host=localhost,port=8080").is_err());
    assert!(parse_config("port=8080,timeout=30").is_err());
}

#[test]
fn test_active_users() {
    let users = vec!["alice", "admin", "bob", "anonymous", "charlie"];
    let active = filter_active_users(users);
    assert_eq!(active, vec!["alice", "admin", "anonymous"]);
}

#[test]
fn test_email_normalization() {
    let emails = vec!["Alice@EXAMPLE.COM".to_string(), "BOB@test.ORG".to_string()];
    let normalized = normalize_emails(emails);
    assert_eq!(normalized, vec!["alice@example.com", "bob@test.org"]);
}

#[test]
fn test_revenue_calculation() {
    let total = calculate_total_revenue();
    assert_eq!(total, 14200); // Sum of all sales
}

#[test]
fn test_rust_files() {
    let files = &["main.rs", "README.md", "lib.rs", "package.json", "config.rs"];
    let rust_files = find_rust_files(files);
    assert_eq!(rust_files, vec!["main.rs", "lib.rs", "config.rs"]);
}

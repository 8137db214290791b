//! Tests for the parsing exercises: CSV, word statistics, environment
//! files, logs, phone numbers, inventory, passwords and JSON.

use cargo_course::exercises::csv_parser::parse_csv;
use cargo_course::exercises::word_counter::{count_words, frequent_words, most_common_word};
use cargo_course::exercises::env_parser::{
    get_env_var, parse_env_file, parse_env_line, validate_required_vars,
};
use cargo_course::exercises::log_parser::parse_log_line;
use cargo_course::exercises::phone_formatter::format_phone;
use cargo_course::exercises::inventory_manager::Inventory;
use cargo_course::exercises::password_validator::{
    generate_secure_password, suggest_improvements, validate_password, PasswordStrength,
};
use cargo_course::exercises::password_strength;
use cargo_course::exercises::user_profile_json::{user_from_json, user_to_json, User};
use cargo_course::exercises::api_response_parser::{is_success, parse_api_response};
use cargo_course::exercises::env_parser::ParseError;
use std::collections::HashMap;

#[test]
fn test_parse_csv() {
    let data = "name,age\nJohn,25\nJane,30";
    let rows = parse_csv(data);
    assert_eq!(rows[0], vec!["name", "age"]);
    assert_eq!(rows[1], vec!["John", "25"]);
    assert_eq!(rows[2], vec!["Jane", "30"]);
}

#[test]
fn test_word_counts_lowercase() {
    let text = "hello world hello rust world";
    let counts = count_words(text);
    assert_eq!(counts.get("hello"), Some(&2));
    assert_eq!(counts.get("world"), Some(&2));
    assert_eq!(counts.get("rust"), Some(&1));
}

#[test]
fn test_case_insensitive() {
    let text = "Hello HELLO hello";
    let counts = count_words(text);
    assert_eq!(counts.get("hello"), Some(&3));
}

#[test]
fn test_most_common() {
    let text = "apple banana apple cherry apple";
    let (word, count) = most_common_word(text).unwrap();
    assert_eq!(word, "apple");
    assert_eq!(count, 3);
}

#[test]
fn test_frequent_words() {
    let text = "one two two three three three";
    let frequent = frequent_words(text, 2);
    assert!(frequent.contains(&"two".to_string()));
    assert!(frequent.contains(&"three".to_string()));
    assert!(!frequent.contains(&"one".to_string()));
}

#[test]
fn test_parse_line() {
    assert_eq!(
        parse_env_line("PORT=8080"),
        Ok(("PORT".to_string(), "8080".to_string()))
    );
    assert_eq!(
        parse_env_line("HOST=localhost"),
        Ok(("HOST".to_string(), "localhost".to_string()))
    );
    assert!(parse_env_line("INVALID").is_err());
    assert!(parse_env_line("=value").is_err());
    assert!(parse_env_line("KEY=").is_err());
}

#[test]
fn test_parse_file() {
    let content = "\n# Database configuration\nHOST=localhost\nPORT=5432\nDATABASE=myapp\n\n# Empty line above should be ignored\nDEBUG=true\n";
    let env = parse_env_file(content).unwrap();
    assert_eq!(env.get("HOST"), Some(&"localhost".to_string()));
    assert_eq!(env.get("PORT"), Some(&"5432".to_string()));
    assert_eq!(env.get("DEBUG"), Some(&"true".to_string()));
    assert_eq!(env.len(), 4);
}

#[test]
fn test_type_conversion() {
    let mut env = HashMap::new();
    env.insert("PORT".to_string(), "8080".to_string());
    env.insert("DEBUG".to_string(), "true".to_string());

    let port: Option<u16> = get_env_var(&env, "PORT");
    assert_eq!(port, Some(8080));

    let debug: Option<bool> = get_env_var(&env, "DEBUG");
    assert_eq!(debug, Some(true));
}

#[test]
fn test_validation() {
    let mut env = HashMap::new();
    env.insert("HOST".to_string(), "localhost".to_string());
    env.insert("PORT".to_string(), "8080".to_string());

    assert!(validate_required_vars(&env, &["HOST", "PORT"]).is_ok());
    assert!(validate_required_vars(&env, &["HOST", "MISSING"]).is_err());
}

#[test]
fn test_env_error_variants() {
    assert_eq!(parse_env_line("no equals here"), Err(ParseError::InvalidFormat));
    assert_eq!(parse_env_line("  =value"), Err(ParseError::EmptyKey));
    assert_eq!(parse_env_line("KEY=   "), Err(ParseError::EmptyValue));
    assert!(parse_env_file("GOOD=1\nBAD\n").is_err());
}

#[test]
fn test_parse_log() {
    let line = "[2024-01-15 10:30:45] INFO: User logged in";
    let entry = parse_log_line(line).unwrap();
    assert_eq!(entry.timestamp, "2024-01-15 10:30:45");
    assert_eq!(entry.level, "INFO");
    assert_eq!(entry.message, "User logged in");
}

#[test]
fn test_parse_log_rejects_shapeless() {
    assert!(parse_log_line("no brackets at all").is_none());
    assert!(parse_log_line("[only a timestamp").is_none());
    assert!(parse_log_line("[ts] no colon here").is_none());
}

#[test]
fn test_format_phone() {
    assert_eq!(format_phone("5551234567"), Some("(555) 123-4567".to_string()));
    assert_eq!(format_phone("555-123-4567"), Some("(555) 123-4567".to_string()));
    assert_eq!(format_phone("+1 555 123 4567"), Some("(555) 123-4567".to_string()));
    assert_eq!(format_phone("invalid"), None);
}

#[test]
fn test_inventory() {
    let mut inv = Inventory::new();
    inv.add_item("apples".to_string(), 10);
    inv.add_item("oranges".to_string(), 5);

    assert_eq!(inv.get_quantity("apples"), 10);
    assert_eq!(inv.total_items(), 15);

    assert!(inv.remove_item("apples", 3).is_ok());
    assert_eq!(inv.get_quantity("apples"), 7);

    assert!(inv.remove_item("apples", 10).is_err());
}

#[test]
fn test_weak_passwords() {
    let weak = validate_password("123");
    assert!(weak.score < 30);
    assert!(!weak.is_strong);
    assert!(!weak.feedback.is_empty());
}

#[test]
fn test_medium_passwords() {
    let medium = validate_password("Password1");
    assert!(medium.score >= 30 && medium.score < 70);
}

#[test]
fn test_strong_passwords() {
    let strong = validate_password("MySecure!Password123");
    assert!(strong.score >= 70);
    assert!(strong.is_strong);
}

#[test]
fn test_feedback_quality() {
    let result = validate_password("weak");
    // Ensure feedback is helpful and specific
    assert!(result
        .feedback
        .iter()
        .any(|msg| msg.contains("characters") || msg.contains("length")));
}

#[test]
fn test_generated_password_is_strong() {
    let password = generate_secure_password(16);
    assert_eq!(password.chars().count(), 16);
    let strength = validate_password(&password);
    assert!(strength.is_strong);
}

#[test]
fn test_suggestions_cover_feedback() {
    let strength = PasswordStrength {
        score: 15,
        feedback: vec!["Add a number".to_string()],
        is_strong: false,
    };
    let suggestions = suggest_improvements(&strength);
    assert_eq!(suggestions, vec!["Try this: Add a number".to_string()]);
}

#[test]
fn test_password_strength() {
    let weak = password_strength::validate_password("123");
    assert!(weak.score < 30);
    assert!(!weak.feedback.is_empty());

    let strong = password_strength::validate_password("MyStr0ng!P@ssw0rd");
    assert!(strong.score > 80);
}

#[test]
fn test_user_serde() {
    let user = User {
        id: 1,
        name: "John".to_string(),
        email: "john@example.com".to_string(),
        active: true,
    };

    let json = user_to_json(&user);
    let parsed = user_from_json(&json).unwrap();
    assert_eq!(user, parsed);
}

#[test]
fn test_user_json_shape() {
    let user = User {
        id: 7,
        name: "Ada".to_string(),
        email: "ada@example.com".to_string(),
        active: false,
    };
    assert_eq!(
        user_to_json(&user),
        "{\"id\":7,\"name\":\"Ada\",\"email\":\"ada@example.com\",\"active\":false}"
    );
}

#[test]
fn test_user_json_escapes_round_trip() {
    let user = User {
        id: 2,
        name: "A \"quoted\" name\\with backslash".to_string(),
        email: "line\nbreak@example.com".to_string(),
        active: true,
    };
    let json = user_to_json(&user);
    let parsed = user_from_json(&json).unwrap();
    assert_eq!(user, parsed);
}

#[test]
fn test_api_response() {
    let success_json = "{\"status\":\"ok\",\"data\":[\"item1\",\"item2\"],\"count\":2}";
    let response = parse_api_response(success_json).unwrap();
    assert!(is_success(&response));
    assert_eq!(response.count, Some(2));

    let error_json = "{\"status\":\"error\",\"error\":\"Not found\"}";
    let response = parse_api_response(error_json).unwrap();
    assert!(!is_success(&response));
}

#[test]
fn test_api_response_rejects_malformed() {
    assert!(parse_api_response("").is_err());
    assert!(parse_api_response("{\"status\":\"ok\"").is_err());
    assert!(parse_api_response("{\"wrong\":\"ok\"}").is_err());
}

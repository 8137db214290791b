//! Tests for the introductory exercises: formatting, matching, options,
//! vectors, structs and tuples.

use cargo_course::exercises::hello_rust::{format_welcome_message, get_app_version};
use cargo_course::exercises::pattern_matching::{status_code, should_retry, HttpStatus};
use cargo_course::exercises::options_and_results::{
    find_user_by_email, get_config_or_default, parse_port_number,
};
use cargo_course::exercises::vectors_basics::{
    add_item, contains_item, count_items, create_shopping_list,
};
use cargo_course::exercises::hashmaps::{
    count_words, create_default_config, get_config_value, set_config_value,
};
use cargo_course::exercises::structs_and_methods::User;
use cargo_course::exercises::tuples::{
    get_first_name, get_user_info, rectangle_measurements, swap_values,
};
use cargo_course::exercises::option_handling::{
    find_user_by_id, get_first_item, get_setting_or_default, optional_string_length,
};
use std::collections::HashMap;

#[test]
fn test_welcome_message() {
    assert_eq!(format_welcome_message("Alice"), "Welcome, Alice!");
    assert_eq!(format_welcome_message("Bob"), "Welcome, Bob!");
}

#[test]
fn test_app_version() {
    assert_eq!(get_app_version(), "1.0.0");
}

#[test]
fn test_status_codes() {
    assert_eq!(status_code(HttpStatus::Okay), 200);
    assert_eq!(status_code(HttpStatus::NotFound), 404);
    assert_eq!(status_code(HttpStatus::InternalServerError), 500);
}

#[test]
fn test_retry_logic() {
    assert_eq!(should_retry(HttpStatus::InternalServerError), true);
    assert_eq!(should_retry(HttpStatus::NotFound), false);
    assert_eq!(should_retry(HttpStatus::BadRequest), false);
    assert_eq!(should_retry(HttpStatus::Okay), false);
}

#[test]
fn test_find_user() {
    let users = ["alice@example.com", "bob@test.com", "charlie@domain.org"];
    assert_eq!(find_user_by_email(&users, "bob@test.com"), Some("bob@test.com"));

    let no_match = ["alice@example.com", "charlie@domain.org"];
    assert_eq!(find_user_by_email(&no_match, "missing@email.com"), None);
}

#[test]
fn test_parse_port() {
    assert_eq!(parse_port_number("8080"), Ok(8080));
    assert!(parse_port_number("invalid").is_err());
}

#[test]
fn test_config_fallback() {
    assert_eq!(get_config_or_default(Some(3000)), 3000);
    assert_eq!(get_config_or_default(None), 8080);
}

#[test]
fn test_create_list() {
    let items = ["bread", "milk", "eggs"];
    let list = create_shopping_list(&items);
    assert_eq!(list.len(), 3);
    assert_eq!(list[0], "bread");
}

#[test]
fn test_add_item() {
    let mut list = vec!["bread".to_string()];
    add_item(&mut list, "butter");
    assert_eq!(list.len(), 2);
    assert_eq!(list[1], "butter");
}

#[test]
fn test_count_and_contains() {
    let list = vec!["apple".to_string(), "banana".to_string()];
    assert_eq!(count_items(&list), 2);
    assert_eq!(contains_item(&list, "apple"), true);
    assert_eq!(contains_item(&list, "orange"), false);
}

#[test]
fn test_default_config() {
    let config = create_default_config();
    assert_eq!(config.get("host"), Some(&"localhost".to_string()));
    assert_eq!(config.get("port"), Some(&"8080".to_string()));
}

#[test]
fn test_get_config() {
    let mut config = HashMap::new();
    config.insert("timeout".to_string(), "30".to_string());

    assert_eq!(get_config_value(&config, "timeout"), "30");
    assert_eq!(get_config_value(&config, "missing"), "default");
}

#[test]
fn test_set_config() {
    let mut config = HashMap::new();
    set_config_value(&mut config, "debug", "true");
    assert_eq!(config.get("debug"), Some(&"true".to_string()));
}

#[test]
fn test_word_counting() {
    let words = ["hello", "world", "hello", "rust"];
    let counts = count_words(&words);
    assert_eq!(counts.get("hello"), Some(&2));
    assert_eq!(counts.get("world"), Some(&1));
    assert_eq!(counts.get("rust"), Some(&1));
}

#[test]
fn test_new_user() {
    let user = User::new("alice@example.com".to_string(), "Alice".to_string());
    assert_eq!(user.login_count, 0);
    assert_eq!(user.is_verified, false);
}

#[test]
fn test_display_name() {
    let user = User::new("alice@example.com".to_string(), "Alice".to_string());
    assert_eq!(user.display_name(), "Alice (alice@example.com)");
}

#[test]
fn test_login_tracking() {
    let mut user = User::new("alice@example.com".to_string(), "Alice".to_string());

    user.record_login();
    assert_eq!(user.login_count, 1);
    assert_eq!(user.is_verified, true);

    user.record_login();
    assert_eq!(user.login_count, 2);
}

#[test]
fn test_premium_access() {
    let mut user = User::new("alice@example.com".to_string(), "Alice".to_string());

    // Not enough logins yet
    assert_eq!(user.can_access_premium(), false);

    // Record enough logins
    for _ in 0..5 {
        user.record_login();
    }

    // Now has premium access
    assert_eq!(user.can_access_premium(), true);
}

#[test]
fn test_user_info() {
    let (name, age) = get_user_info();
    assert_eq!(name, "Alice");
    assert_eq!(age, 25);
}

#[test]
fn test_rectangle() {
    let (area, perimeter) = rectangle_measurements(5, 3);
    assert_eq!(area, 15); // 5 * 3
    assert_eq!(perimeter, 16); // 2 * (5 + 3)
}

#[test]
fn test_name_extraction() {
    let full_name = ("John".to_string(), "Doe".to_string());
    assert_eq!(get_first_name(full_name), "John");
}

#[test]
fn test_swap() {
    assert_eq!(swap_values((1, 2)), (2, 1));
    assert_eq!(swap_values((42, 100)), (100, 42));
}

#[test]
fn test_find_user_by_numeric_id() {
    let users = [(1, "alice"), (2, "bob"), (3, "charlie")];
    assert_eq!(find_user_by_id(&users, 2), Some("bob"));
    assert_eq!(find_user_by_id(&users, 99), None);
}

#[test]
fn test_first_item() {
    let items = vec!["first".to_string(), "second".to_string()];
    assert_eq!(get_first_item(&items), Some(&"first".to_string()));

    let empty: Vec<String> = vec![];
    assert_eq!(get_first_item(&empty), None);
}

#[test]
fn test_setting_default() {
    assert_eq!(get_setting_or_default(Some(42), 100), 42);
    assert_eq!(get_setting_or_default(None, 100), 100);
}

#[test]
fn test_optional_length() {
    assert_eq!(optional_string_length(Some("hello")), 5);
    assert_eq!(optional_string_length(None), 0);
}

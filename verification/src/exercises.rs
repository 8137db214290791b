//! The course's exercises: one module per exercise file, each solution
//! verified against a contract drawn from its documentation and tests.

pub mod hello_rust;
pub mod pattern_matching;
pub mod options_and_results;
pub mod vectors_basics;
pub mod structs_and_methods;
pub mod tuples;
pub mod option_handling;
pub mod ownership_basics;
pub mod result_handling;
pub mod iterator_patterns;
pub mod email_extractor;
pub mod csv_parser;
pub mod log_parser;
pub mod phone_formatter;
pub mod env_parser;
pub mod hashmaps;
pub mod word_counter_basic;
pub mod word_counter;
pub mod inventory_manager;
pub mod config_parser;
pub mod password_validator;
pub mod password_strength;
pub mod user_profile_json;
pub mod api_response_parser;

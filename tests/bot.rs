use bible_bot::bot::{after_attempt, bookmark_update, Attempt, RETRIES};
use bible_bot::err::S3AccessError;
use bible_bot::storage::{load_outcome, save_outcome, Config};
use bible_bot::text::{decimal_string, parse_key_number};

#[test]
fn retries_count_down_then_give_up() {
    assert_eq!(after_attempt(true, 0), Attempt::Done);
    assert_eq!(after_attempt(false, RETRIES), Attempt::Retry(4));
    assert_eq!(after_attempt(false, 1), Attempt::Retry(0));
    assert_eq!(after_attempt(false, 0), Attempt::GiveUp);
}

#[test]
fn bookmark_moves_only_to_a_new_name() {
    assert_eq!(bookmark_update("t1_a", Some("t1_b".to_string())), Some("t1_b".to_string()));
    assert_eq!(bookmark_update("t1_a", Some("t1_a".to_string())), None);
    assert_eq!(bookmark_update("t1_a", Some(String::new())), None);
    assert_eq!(bookmark_update("", None), None);
}

#[test]
fn store_statuses_decide_outcomes() {
    assert_eq!(load_outcome("bm", 200, "t1_x".to_string()), Ok("t1_x".to_string()));
    assert_eq!(load_outcome("bm", 404, String::new()), Err(S3AccessError::Load("bm".to_string())));
    assert_eq!(save_outcome("bm", 200), Ok(()));
    assert_eq!(save_outcome("bm", 500), Err(S3AccessError::Save("bm".to_string())));
}

#[test]
fn config_holds_its_fields() {
    let c = Config {
        client_id: "id".to_string(),
        client_secret: "SECRET-REDACTED".to_string(),
        username: "u".to_string(),
        password: "p".to_string(),
        app_name: "bible-bot".to_string(),
        version: "0.1".to_string(),
        author: "a".to_string(),
    };
    assert_eq!(c.app_name, "bible-bot");
}

#[test]
fn decimal_numerals() {
    assert_eq!(decimal_string(0), "0");
    assert_eq!(decimal_string(3), "3");
    assert_eq!(decimal_string(1090), "1090");
    assert_eq!(decimal_string(u64::MAX), "18446744073709551615");
}

#[test]
fn key_numbers_parse_like_unsigned_decimals() {
    assert_eq!(parse_key_number("17"), 17);
    assert_eq!(parse_key_number("+7"), 7);
    assert_eq!(parse_key_number("007"), 7);
    assert_eq!(parse_key_number(""), 0);
    assert_eq!(parse_key_number("+"), 0);
    assert_eq!(parse_key_number("-1"), 0);
    assert_eq!(parse_key_number("1a"), 0);
    assert_eq!(parse_key_number("18446744073709551615"), u64::MAX);
    assert_eq!(parse_key_number("18446744073709551616"), 0);
}

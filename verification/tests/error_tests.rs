use json_i18n::json_handler;
use json_i18n::json_tree::{clone_value, get_value, str_eq, JsonEntry, JsonValue};
use json_i18n::translate::{Error, ErrorCast, ErrorType};

#[test]
fn backend_error_carries_kind_and_message() {
    let e = Error::new(ErrorType::MissingSecretId, "no id configured");
    assert_eq!(e.error_type(), ErrorType::MissingSecretId);
    assert_eq!(e.message(), "no id configured");
}

#[test]
fn run_error_carries_kind_and_message() {
    let e = json_handler::Error::new(json_handler::ErrorType::WriteJsonError, "disk full");
    assert_eq!(e.error_type(), json_handler::ErrorType::WriteJsonError);
    assert_eq!(e.message(), "disk full");
}

#[test]
fn error_cast_keeps_the_value() {
    let r: Result<u32, String> = Ok(7);
    assert_eq!(r.cast(ErrorType::Others).unwrap(), 7);
}

#[test]
fn error_cast_wraps_the_message() {
    let r: Result<u32, String> = Err("timed out".to_string());
    let e = r.cast(ErrorType::NetworkError).unwrap_err();
    assert_eq!(e.error_type(), ErrorType::NetworkError);
    assert_eq!(e.message(), "timed out");
}

#[test]
fn clone_value_copies_deeply() {
    let v = JsonValue::Object(vec![
        JsonEntry { key: "a".to_string(), value: JsonValue::Str("x".to_string()) },
        JsonEntry {
            key: "o".to_string(),
            value: JsonValue::Object(vec![JsonEntry {
                key: "n".to_string(),
                value: JsonValue::Other("null".to_string()),
            }]),
        },
    ]);
    assert_eq!(clone_value(&v), v);
}

#[test]
fn get_value_finds_first_match_in_order() {
    let entries = vec![
        JsonEntry { key: "a".to_string(), value: JsonValue::Str("1".to_string()) },
        JsonEntry { key: "b".to_string(), value: JsonValue::Str("2".to_string()) },
    ];
    assert_eq!(get_value(&entries, "b"), Some(&JsonValue::Str("2".to_string())));
    assert_eq!(get_value(&entries, "c"), None);
}

#[test]
fn str_eq_compares_by_characters() {
    assert!(str_eq("héllo", "héllo"));
    assert!(!str_eq("a", "ab"));
    assert!(!str_eq("a", "b"));
    assert!(str_eq("", ""));
}

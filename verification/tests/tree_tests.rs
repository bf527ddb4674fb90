use json_i18n::json_handler::{translate_json, ErrorType};
use json_i18n::json_tree::{JsonEntry, JsonValue};
use json_i18n::translate::{Error, ErrorType as BackendErrorType, Translate};

struct UpperLeaf;

impl Translate for UpperLeaf {
    fn translate(&self, _src_lang: &str, _dst_lang: &str, src: &str, _idle: u64) -> Result<String, Error> {
        Ok(src.to_uppercase())
    }
}

struct NoBackend;

impl Translate for NoBackend {
    fn translate(&self, _src_lang: &str, _dst_lang: &str, src: &str, _idle: u64) -> Result<String, Error> {
        panic!("backend consulted with {src:?}");
    }
}

struct Broken;

impl Translate for Broken {
    fn translate(&self, _src_lang: &str, _dst_lang: &str, _src: &str, _idle: u64) -> Result<String, Error> {
        Err(Error::new(BackendErrorType::NetworkError, "backend unreachable"))
    }
}

fn entry(key: &str, value: JsonValue) -> JsonEntry {
    JsonEntry { key: key.to_string(), value }
}

fn leaf(text: &str) -> JsonValue {
    JsonValue::Str(text.to_string())
}

fn keys_of(entries: &[JsonEntry]) -> Vec<String> {
    entries.iter().map(|e| e.key.clone()).collect()
}

#[test]
fn reserved_key_copied_verbatim() {
    let src = vec![
        entry("languages", JsonValue::Other("[1,2,3]".to_string())),
        entry("a", leaf("x")),
    ];
    let out = translate_json(&src, &Vec::new(), "en", "de", &UpperLeaf, 0).unwrap();
    assert_eq!(out.len(), 2);
    assert_eq!(out[0], entry("languages", JsonValue::Other("[1,2,3]".to_string())));
    assert_eq!(out[1], entry("a", leaf("X")));
}

#[test]
fn unsupported_type_fails_without_backend_call() {
    let src = vec![entry("a", JsonValue::Other("5".to_string()))];
    let e = translate_json(&src, &Vec::new(), "en", "de", &NoBackend, 0).unwrap_err();
    assert_eq!(e.error_type(), ErrorType::UnsupportedJsonType);
    assert_eq!(e.message(), "a");
}

#[test]
fn nested_reuse_skips_backend() {
    let src = vec![entry("a", JsonValue::Object(vec![entry("b", leaf("hi"))]))];
    let reference = vec![entry("a", JsonValue::Object(vec![entry("b", leaf("reused"))]))];
    let out = translate_json(&src, &reference, "en", "de", &NoBackend, 0).unwrap();
    assert_eq!(out, reference);
}

#[test]
fn full_reuse_returns_reference() {
    let src = vec![
        entry("languages", JsonValue::Other("[\"en\",\"de\"]".to_string())),
        entry("greeting", leaf("Hello")),
        entry("menu", JsonValue::Object(vec![entry("open", leaf("Open")), entry("close", leaf("Close"))])),
    ];
    let reference = vec![
        entry("languages", JsonValue::Other("[\"en\",\"de\"]".to_string())),
        entry("greeting", leaf("Hallo")),
        entry("menu", JsonValue::Object(vec![entry("open", leaf("Offen")), entry("close", leaf("Zu"))])),
    ];
    let out = translate_json(&src, &reference, "en", "de", &NoBackend, 0).unwrap();
    assert_eq!(out, reference);
}

#[test]
fn output_keys_follow_source_order() {
    let src = vec![
        entry("b", leaf("1")),
        entry("a", leaf("2")),
        entry("m", JsonValue::Object(vec![entry("z", leaf("3")), entry("y", leaf("4"))])),
    ];
    let reference = vec![entry("a", leaf("zwei"))];
    let out = translate_json(&src, &reference, "en", "de", &UpperLeaf, 0).unwrap();
    assert_eq!(keys_of(&out), vec!["b", "a", "m"]);
    match &out[2].value {
        JsonValue::Object(inner) => assert_eq!(keys_of(inner), vec!["z", "y"]),
        other => panic!("expected an object, got {other:?}"),
    }
}

#[test]
fn missing_reference_key_is_translated() {
    let src = vec![entry("a", leaf("x")), entry("b", leaf("y"))];
    let reference = vec![entry("a", leaf("x-prior"))];
    let out = translate_json(&src, &reference, "en", "de", &UpperLeaf, 0).unwrap();
    assert_eq!(out[0], entry("a", leaf("x-prior")));
    assert_eq!(out[1], entry("b", leaf("Y")));
}

#[test]
fn reference_value_of_wrong_type_is_ignored() {
    let src = vec![entry("a", leaf("x"))];
    let reference = vec![entry("a", JsonValue::Object(Vec::new()))];
    let out = translate_json(&src, &reference, "en", "de", &UpperLeaf, 0).unwrap();
    assert_eq!(out[0], entry("a", leaf("X")));
}

#[test]
fn first_error_wins_in_entry_order() {
    let src = vec![
        entry("bad", JsonValue::Other("true".to_string())),
        entry("later", leaf("x")),
    ];
    let e = translate_json(&src, &Vec::new(), "en", "de", &NoBackend, 0).unwrap_err();
    assert_eq!(e.error_type(), ErrorType::UnsupportedJsonType);
    assert_eq!(e.message(), "bad");
}

#[test]
fn backend_failure_surfaces_as_translate_error() {
    let src = vec![entry("a", leaf("x"))];
    let e = translate_json(&src, &Vec::new(), "en", "de", &Broken, 0).unwrap_err();
    assert_eq!(e.error_type(), ErrorType::TranslateError);
}

#[test]
fn reserved_key_is_reserved_at_any_depth() {
    let src = vec![entry(
        "outer",
        JsonValue::Object(vec![entry("languages", JsonValue::Other("[1]".to_string()))]),
    )];
    let out = translate_json(&src, &Vec::new(), "en", "de", &NoBackend, 0).unwrap();
    assert_eq!(out, src);
}

#[test]
fn leaf_with_placeholders_translated_in_tree() {
    let src = vec![entry("greeting", leaf("Hello {name}, welcome!"))];
    let out = translate_json(&src, &Vec::new(), "en", "de", &UpperLeaf, 0).unwrap();
    assert_eq!(out[0], entry("greeting", leaf("HELLO {name} , WELCOME!")));
}

use json_i18n::json_handler::ErrorType;
use json_i18n::segment::{translate, trim_str};
use json_i18n::translate::{Error, ErrorType as BackendErrorType, Translate};

/// Uppercases everything it is given.
struct Upper;

impl Translate for Upper {
    fn translate(&self, _src_lang: &str, _dst_lang: &str, src: &str, _idle: u64) -> Result<String, Error> {
        Ok(src.to_uppercase())
    }
}

/// Answers every request with the same word.
struct Junk;

impl Translate for Junk {
    fn translate(&self, _src_lang: &str, _dst_lang: &str, _src: &str, _idle: u64) -> Result<String, Error> {
        Ok("xyz".to_string())
    }
}

/// Fails every request.
struct Down;

impl Translate for Down {
    fn translate(&self, _src_lang: &str, _dst_lang: &str, _src: &str, _idle: u64) -> Result<String, Error> {
        Err(Error::new(BackendErrorType::NetworkError, "backend unreachable"))
    }
}

/// Panics when consulted: for cases where no literal span may be sent.
struct Untouchable;

impl Translate for Untouchable {
    fn translate(&self, _src_lang: &str, _dst_lang: &str, src: &str, _idle: u64) -> Result<String, Error> {
        panic!("backend consulted with {src:?}");
    }
}

#[test]
fn passthrough_whole_text_no_placeholder() {
    let r = translate("hello world", "en", "de", &Upper, 0).unwrap();
    assert_eq!(r, "HELLO WORLD");
}

#[test]
fn passthrough_keeps_original_spacing() {
    let r = translate("  hi  ", "en", "de", &Upper, 0).unwrap();
    assert_eq!(r, "  HI  ");
}

#[test]
fn end_to_end_uppercase_example() {
    let r = translate("Hello {name}, welcome!", "en", "de", &Upper, 0).unwrap();
    assert_eq!(r, "HELLO {name} , WELCOME!");
}

#[test]
fn adjacent_placeholders_no_separator() {
    let r = translate("{a}{b}", "en", "de", &Untouchable, 0).unwrap();
    assert_eq!(r, "{a}{b}");
}

#[test]
fn placeholder_only_with_spaces() {
    let r = translate("  {a}  ", "en", "de", &Untouchable, 0).unwrap();
    assert_eq!(r, "{a}");
}

#[test]
fn empty_braces_are_no_placeholder() {
    let r = translate("{}", "en", "de", &Upper, 0).unwrap();
    assert_eq!(r, "{}");
}

#[test]
fn placeholders_survive_any_backend() {
    let r = translate("a {p1} b {p2} c", "en", "de", &Junk, 0).unwrap();
    assert_eq!(r, "xyz {p1}xyz {p2} xyz");
}

#[test]
fn placeholder_may_contain_spaces_and_braces() {
    let r = translate("say {first name} loud", "en", "de", &Upper, 0).unwrap();
    assert_eq!(r, "SAY {first name} LOUD");
}

#[test]
fn backend_failure_aborts_whole_call() {
    let e = translate("hello {x} world", "en", "de", &Down, 0).unwrap_err();
    assert_eq!(e.error_type(), ErrorType::TranslateError);
}

#[test]
fn unicode_text_is_segmented_by_characters() {
    let r = translate("héllo {name}!", "en", "de", &Upper, 0).unwrap();
    assert_eq!(r, "HÉLLO {name} !");
}

#[test]
fn trim_removes_outer_whitespace_only() {
    assert_eq!(trim_str("  a b  "), "a b");
    assert_eq!(trim_str("   "), "");
    assert_eq!(trim_str("ab"), "ab");
    assert_eq!(trim_str("\u{a0}x\u{a0}"), "x");
}

use cache_response::eligibility::{contains_bytes, has_cacheable_type, is_cacheable, CONTENT_TYPE};
use cache_response::message::Header;

fn header(name: &str, value: &[u8]) -> Header {
    Header { name: name.to_string(), value: value.to_vec() }
}

#[test]
fn stylesheets_scripts_and_wasm_are_cacheable() {
    assert!(is_cacheable("text/css"));
    assert!(is_cacheable("application/javascript"));
    assert!(is_cacheable("application/wasm"));
}

#[test]
fn html_and_json_are_not_cacheable() {
    assert!(!is_cacheable("text/html"));
    assert!(!is_cacheable("application/json"));
}

#[test]
fn images_fonts_and_icons_are_cacheable() {
    assert!(is_cacheable("image/webp"));
    assert!(is_cacheable("font/ttf"));
    assert!(is_cacheable("image/x-icon"));
    assert!(is_cacheable("text/css; charset=utf-8"));
}

#[test]
fn tag_match_is_case_sensitive_substring() {
    assert!(!is_cacheable("text/CSS"));
    assert!(!is_cacheable(""));
    assert!(!is_cacheable("cs"));
    assert!(is_cacheable("xcssx"));
    assert!(!is_cacheable("image/png"));
}

#[test]
fn substring_search_finds_runs_of_bytes() {
    assert!(contains_bytes(b"abcdef", b"cde"));
    assert!(contains_bytes(b"abcdef", b"abcdef"));
    assert!(contains_bytes(b"abc", b""));
    assert!(contains_bytes(b"", b""));
    assert!(!contains_bytes(b"abc", b"abcd"));
    assert!(!contains_bytes(b"abcdef", b"ce"));
    assert!(contains_bytes(b"aab", b"ab"));
}

#[test]
fn missing_content_type_is_ineligible() {
    assert!(!has_cacheable_type(&vec![]));
    assert!(!has_cacheable_type(&vec![header("content-length", b"4")]));
}

#[test]
fn content_type_header_decides_eligibility() {
    assert_eq!(CONTENT_TYPE, "content-type");
    assert!(has_cacheable_type(&vec![header("x-a", b"css"), header("content-type", b"text/css")]));
    assert!(!has_cacheable_type(&vec![header("content-type", b"text/html")]));
}

#[test]
fn only_the_first_content_type_counts() {
    assert!(!has_cacheable_type(&vec![
        header("content-type", b"text/html"),
        header("content-type", b"text/css"),
    ]));
    assert!(has_cacheable_type(&vec![
        header("content-type", b"text/css"),
        header("content-type", b"text/html"),
    ]));
}

#[test]
fn unreadable_content_type_is_ineligible() {
    assert!(!has_cacheable_type(&vec![header("content-type", b"text/css\x80")]));
    assert!(!has_cacheable_type(&vec![header("content-type", b"text/css\n")]));
    assert!(has_cacheable_type(&vec![header("content-type", b"text/css;\tq=1")]));
}

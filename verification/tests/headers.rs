use axum::http::{header, HeaderMap, HeaderValue};
use web_modules::headers::{declares_html_type, has_few_names, is_html};

#[test]
fn html_types_are_recognised() {
    assert!(declares_html_type(b"text/html"));
    assert!(declares_html_type(b"text/html; charset=utf-8"));
    assert!(declares_html_type(b" \t text/html"));
    assert!(declares_html_type(b"text/htmlx"));
}

#[test]
fn other_types_are_not_html() {
    assert!(!declares_html_type(b""));
    assert!(!declares_html_type(b"   "));
    assert!(!declares_html_type(b"text/plain"));
    assert!(!declares_html_type(b"Text/HTML"));
    assert!(!declares_html_type(b"text/htm"));
    assert!(!declares_html_type(b"x text/html"));
}

#[test]
fn a_type_that_is_not_visible_ascii_is_not_html() {
    assert!(!declares_html_type(b"text/html; \xfc"));
    assert!(!declares_html_type(b"text/html\n"));
}

#[test]
fn the_first_content_type_counts() {
    let mut headers = HeaderMap::new();
    assert!(!is_html(&headers));
    headers.append(header::CONTENT_TYPE, HeaderValue::from_static("text/html"));
    headers.append(header::CONTENT_TYPE, HeaderValue::from_static("text/plain"));
    assert!(is_html(&headers));
    headers.insert(header::CONTENT_TYPE, HeaderValue::from_static("text/plain"));
    assert!(!is_html(&headers));
}

#[test]
fn names_are_counted_once_each() {
    let mut headers = HeaderMap::new();
    assert!(has_few_names(&headers));
    for i in 0..6553 {
        let name = header::HeaderName::from_bytes(format!("x-{i}").as_bytes()).unwrap();
        headers.append(name.clone(), HeaderValue::from_static("v"));
        headers.append(name, HeaderValue::from_static("w"));
    }
    assert!(has_few_names(&headers));
    headers.insert(header::ACCEPT, HeaderValue::from_static("v"));
    assert!(!has_few_names(&headers));
}

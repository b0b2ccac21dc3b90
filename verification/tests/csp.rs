use axum::http::{header, Extensions, HeaderMap, HeaderValue};
use web_modules::csp::{BodyEvent, BodyStep, Exchange, MAX_HTML_REWRITE};
use web_modules::nonce::nonce_from_entropy;
use web_modules::{CspNonce, CspNonceLayer, DEFAULT_SENTINEL};

/// Pull the nonce value out of a `… 'nonce-<value>' …` policy string.
fn nonce_from_csp(csp: &str) -> String {
    let start = csp.find("'nonce-").expect("a nonce source") + "'nonce-".len();
    let rest = &csp[start..];
    let end = rest.find('\'').expect("a closing quote");
    rest[..end].to_string()
}

fn open(layer: &CspNonceLayer, extensions: &mut Extensions) -> Exchange {
    layer.layer(()).open(extensions).expect("a random source")
}

fn typed(content_type: &str) -> HeaderMap {
    let mut headers = HeaderMap::new();
    headers.insert(header::CONTENT_TYPE, HeaderValue::from_str(content_type).unwrap());
    headers
}

fn html() -> HeaderMap {
    typed("text/html; charset=utf-8")
}

fn policy(headers: &HeaderMap) -> String {
    headers
        .get(header::CONTENT_SECURITY_POLICY)
        .expect("CSP header set")
        .to_str()
        .unwrap()
        .to_string()
}

/// Takes a response through the exchange, its body in chunks, and gives the body that is sent.
fn answer(exchange: &Exchange, headers: &mut HeaderMap, chunks: &[&str]) -> String {
    let whole = chunks.concat();
    if !exchange.finish_head(headers).unwrap() {
        return whole;
    }
    let mut buffered: Vec<u8> = Vec::new();
    for chunk in chunks {
        let event = BodyEvent::Chunk(chunk.as_bytes().to_vec());
        let step = exchange.body_step(headers, &mut buffered, event);
        assert!(matches!(step, BodyStep::More));
    }
    match exchange.body_step(headers, &mut buffered, BodyEvent::End) {
        BodyStep::Keep => String::from_utf8(buffered).unwrap(),
        BodyStep::Replace(text) => text,
        step => panic!("unexpected step {step:?}"),
    }
}

#[test]
fn sets_header_and_substitutes_nonce() {
    let layer = CspNonceLayer::new("default-src 'none'; script-src 'self' 'nonce-{nonce}'");
    let exchange = open(&layer, &mut Extensions::new());
    let mut headers = html();
    answer(&exchange, &mut headers, &["<html></html>"]);
    let csp = policy(&headers);
    assert!(!csp.contains("{nonce}"), "placeholder not substituted: {csp}");
    let nonce = nonce_from_csp(&csp);
    assert_eq!(nonce.len(), 32, "16 random bytes give 32 hex chars");
    assert!(nonce.chars().all(|c| c.is_ascii_hexdigit()));
    assert_eq!(csp, format!("default-src 'none'; script-src 'self' 'nonce-{nonce}'"));
}

#[test]
fn nonce_is_unique_per_request() {
    let layer = CspNonceLayer::new("script-src 'nonce-{nonce}'");
    let header_nonce = || {
        let exchange = open(&layer, &mut Extensions::new());
        let mut headers = HeaderMap::new();
        answer(&exchange, &mut headers, &["x"]);
        nonce_from_csp(&policy(&headers))
    };
    assert_ne!(header_nonce(), header_nonce());
}

#[test]
fn nonce_in_extensions_matches_header() {
    let layer = CspNonceLayer::new("script-src 'nonce-{nonce}'");
    let mut extensions = Extensions::new();
    let exchange = open(&layer, &mut extensions);
    let body_nonce = extensions.get::<CspNonce>().expect("a nonce").as_str().to_string();
    let mut headers = HeaderMap::new();
    answer(&exchange, &mut headers, &[body_nonce.as_str()]);
    let header_nonce = nonce_from_csp(&policy(&headers));
    assert_eq!(body_nonce, header_nonce, "the extension nonce must match the header nonce");
    assert_eq!(exchange.nonce_str(), header_nonce);
}

#[test]
fn rewrites_sentinel_in_html_body() {
    let layer = CspNonceLayer::new("script-src 'nonce-{nonce}'").rewrite_html_body();
    let exchange = open(&layer, &mut Extensions::new());
    let mut headers = html();
    let body = answer(&exchange, &mut headers, &["<script nonce=\"__CSP_NONCE__\">1</script>"]);
    let nonce = nonce_from_csp(&policy(&headers));
    assert!(body.contains(&format!("nonce=\"{nonce}\"")), "body = {body}");
    assert!(!body.contains("__CSP_NONCE__"));
    assert_eq!(body, format!("<script nonce=\"{nonce}\">1</script>"));
}

#[test]
fn does_not_rewrite_non_html_body() {
    let layer = CspNonceLayer::new("script-src 'nonce-{nonce}'").rewrite_html_body();
    let exchange = open(&layer, &mut Extensions::new());
    let mut headers = typed("application/javascript");
    let body = answer(&exchange, &mut headers, &["const marker = '__CSP_NONCE__';"]);
    assert!(body.contains("__CSP_NONCE__"), "non-HTML must be untouched");
}

#[test]
fn leaves_sentinel_when_rewrite_not_enabled() {
    let layer = CspNonceLayer::new("script-src 'nonce-{nonce}'");
    let exchange = open(&layer, &mut Extensions::new());
    let mut headers = html();
    let body = answer(&exchange, &mut headers, &["<script nonce=\"__CSP_NONCE__\"></script>"]);
    assert!(
        body.contains("__CSP_NONCE__"),
        "sentinel left intact unless rewriting is opted into"
    );
}

#[test]
fn nested_layers_share_one_nonce() {
    let layer = CspNonceLayer::new("script-src 'nonce-{nonce}'").rewrite_html_body();
    let mut extensions = Extensions::new();
    let outer = open(&layer, &mut extensions);
    let inner = open(&layer, &mut extensions);
    let mut headers = html();
    let first = answer(&inner, &mut headers, &["<script nonce=\"__CSP_NONCE__\"></script>"]);
    let body = answer(&outer, &mut headers, &[first.as_str()]);
    let nonce = nonce_from_csp(&policy(&headers));
    assert!(body.contains(&format!("nonce=\"{nonce}\"")), "body = {body}");
    assert!(!body.contains("__CSP_NONCE__"));
    assert_eq!(body, first);
    assert_eq!(headers.get_all(header::CONTENT_SECURITY_POLICY).iter().count(), 1);
    assert_eq!(extensions.get::<CspNonce>().unwrap().to_string(), nonce);
}

#[test]
fn stored_nonce_is_used_again() {
    let layer = CspNonceLayer::new("script-src 'nonce-{nonce}'; style-src 'nonce-{nonce}'");
    let mut extensions = Extensions::new();
    extensions.insert(CspNonce("abc".to_string()));
    let exchange = open(&layer, &mut extensions);
    let mut headers = HeaderMap::new();
    assert_eq!(exchange.finish_head(&mut headers), Ok(false));
    assert_eq!(policy(&headers), "script-src 'nonce-abc'; style-src 'nonce-abc'");
    assert_eq!(extensions.get::<CspNonce>().unwrap().as_str(), "abc");
}

#[test]
fn adopted_nonce_is_stored_and_carried() {
    let layer = CspNonceLayer::new("script-src 'nonce-{nonce}'");
    let mut extensions = Extensions::new();
    let exchange = layer.layer(()).adopt(&mut extensions, "00ff".to_string());
    assert_eq!(extensions.get::<CspNonce>().unwrap().as_str(), "00ff");
    let mut headers = HeaderMap::new();
    exchange.finish_head(&mut headers).unwrap();
    assert_eq!(policy(&headers), "script-src 'nonce-00ff'");
}

#[test]
fn policy_replaces_every_other_policy_and_keeps_other_headers() {
    let exchange = CspNonceLayer::new("new").layer(()).exchange("n".to_string());
    let mut headers = html();
    headers.append(header::CONTENT_SECURITY_POLICY, HeaderValue::from_static("old"));
    headers.append(header::CONTENT_SECURITY_POLICY, HeaderValue::from_static("older"));
    headers.insert(header::CONTENT_LENGTH, HeaderValue::from_static("7"));
    exchange.finish_head(&mut headers).unwrap();
    let values: Vec<&HeaderValue> =
        headers.get_all(header::CONTENT_SECURITY_POLICY).iter().collect();
    assert_eq!(values, ["new"]);
    assert_eq!(headers[header::CONTENT_TYPE], "text/html; charset=utf-8");
    assert_eq!(headers[header::CONTENT_LENGTH], "7");
}

#[test]
fn policy_that_cannot_stand_in_a_header_is_not_sent() {
    let mut headers = html();
    let exchange = CspNonceLayer::new("a\nb").layer(()).exchange("n".to_string());
    exchange.finish_head(&mut headers).unwrap();
    let exchange = CspNonceLayer::new("a\u{7f}").layer(()).exchange("n".to_string());
    exchange.finish_head(&mut headers).unwrap();
    assert!(headers.get(header::CONTENT_SECURITY_POLICY).is_none());
}

#[test]
fn policy_may_hold_a_tab_and_text_beyond_ascii() {
    let mut headers = HeaderMap::new();
    let exchange = CspNonceLayer::new("a\t{nonce}ü").layer(()).exchange("n".to_string());
    exchange.finish_head(&mut headers).unwrap();
    let value = headers.get(header::CONTENT_SECURITY_POLICY).unwrap();
    assert_eq!(value.as_bytes(), "a\tnü".as_bytes());
}

#[test]
fn full_headers_are_reported_and_kept() {
    let mut headers = HeaderMap::new();
    for i in 0..24576 {
        let name = header::HeaderName::from_bytes(format!("x-{i}").as_bytes()).unwrap();
        headers.insert(name, HeaderValue::from_static("v"));
    }
    let exchange = CspNonceLayer::new("p").layer(()).exchange("n".to_string());
    assert!(exchange.finish_head(&mut headers).is_err());
    assert_eq!(headers.len(), 24576);
}

#[test]
fn custom_sentinel_is_replaced() {
    let layer = CspNonceLayer::new("p").rewrite_html_body().rewrite_html_body_with("@@");
    let exchange = layer.layer(()).exchange("n".to_string());
    let body = answer(&exchange, &mut html(), &["@@ __CSP_NONCE__ @", "@"]);
    assert_eq!(body, "n __CSP_NONCE__ n");
    assert_eq!(DEFAULT_SENTINEL, "__CSP_NONCE__");
}

#[test]
fn empty_sentinel_stands_everywhere() {
    let exchange = CspNonceLayer::new("p")
        .rewrite_html_body_with("")
        .layer(())
        .exchange("-".to_string());
    assert_eq!(answer(&exchange, &mut html(), &["ab"]), "-a-b-");
}

#[test]
fn layer_and_service_can_be_cloned() {
    let layer = CspNonceLayer::new("p {nonce}").rewrite_html_body_with("@").clone();
    let mut service = layer.layer(7u8);
    *service.inner_mut() = 8;
    let mut copy = service.clone();
    assert_eq!(*copy.inner_mut(), 8);
    let exchange = copy.exchange("n".to_string());
    let mut headers = html();
    assert_eq!(answer(&exchange, &mut headers, &["@"]), "n");
    assert_eq!(policy(&headers), "p n");
}

#[test]
fn rewriting_drops_the_content_length() {
    let exchange =
        CspNonceLayer::new("p").rewrite_html_body().layer(()).exchange("n".to_string());
    let mut headers = html();
    headers.insert(header::CONTENT_LENGTH, HeaderValue::from_static("13"));
    let step = exchange.rewrite_body(&mut headers, b"__CSP_NONCE__");
    assert!(matches!(step, BodyStep::Replace(text) if text == "n"));
    assert!(headers.get(header::CONTENT_LENGTH).is_none());
    assert!(headers.get(header::CONTENT_TYPE).is_some());
}

#[test]
fn body_that_is_not_utf8_or_has_no_sentinel_is_kept() {
    let exchange =
        CspNonceLayer::new("p").rewrite_html_body().layer(()).exchange("n".to_string());
    let mut headers = html();
    headers.insert(header::CONTENT_LENGTH, HeaderValue::from_static("14"));
    let step = exchange.rewrite_body(&mut headers, b"__CSP_NONCE__\xff");
    assert!(matches!(step, BodyStep::Keep));
    let step = exchange.rewrite_body(&mut headers, b"__CSP_NONCE_");
    assert!(matches!(step, BodyStep::Keep));
    assert_eq!(headers[header::CONTENT_LENGTH], "14");
}

#[test]
fn body_of_the_largest_size_is_read_and_a_larger_one_passed_on() {
    let exchange =
        CspNonceLayer::new("p").rewrite_html_body().layer(()).exchange("n".to_string());
    let mut headers = html();
    headers.insert(header::CONTENT_LENGTH, HeaderValue::from_static("1"));
    let mut buffered = vec![b' '; MAX_HTML_REWRITE - 13];
    let event = BodyEvent::Chunk(b"__CSP_NONCE__".to_vec());
    let step = exchange.body_step(&mut headers, &mut buffered, event);
    assert!(matches!(step, BodyStep::More));
    assert_eq!(buffered.len(), 4_194_304);
    let step = exchange.body_step(&mut headers, &mut buffered, BodyEvent::Chunk(b"!".to_vec()));
    assert!(matches!(step, BodyStep::PassOn));
    assert!(buffered.ends_with(b"__CSP_NONCE__!"));
    assert_eq!(headers[header::CONTENT_LENGTH], "1");
}

#[test]
fn broken_body_fails_closed() {
    let exchange =
        CspNonceLayer::new("p").rewrite_html_body().layer(()).exchange("n".to_string());
    let mut headers = html();
    headers.insert(header::CONTENT_LENGTH, HeaderValue::from_static("9"));
    let mut buffered = b"<html>".to_vec();
    let step = exchange.body_step(&mut headers, &mut buffered, BodyEvent::Failed);
    assert!(matches!(step, BodyStep::Fail(500)));
    assert!(headers.get(header::CONTENT_LENGTH).is_none());
}

#[test]
fn complete_body_over_the_largest_size_is_kept() {
    let exchange =
        CspNonceLayer::new("p").rewrite_html_body().layer(()).exchange("n".to_string());
    let mut headers = html();
    headers.insert(header::CONTENT_LENGTH, HeaderValue::from_static("1"));
    let mut body = vec![b' '; MAX_HTML_REWRITE - 12];
    body.extend_from_slice(b"__CSP_NONCE__");
    let step = exchange.rewrite_body(&mut headers, &body);
    assert!(matches!(step, BodyStep::Keep));
    assert_eq!(headers[header::CONTENT_LENGTH], "1");
}

#[test]
fn other_extensions_are_kept() {
    let layer = CspNonceLayer::new("script-src 'nonce-{nonce}'");
    let mut extensions = Extensions::new();
    extensions.insert(7u32);
    extensions.insert("label");
    open(&layer, &mut extensions);
    layer.layer(()).adopt(&mut extensions, "00ff".to_string());
    assert_eq!(extensions.get::<u32>(), Some(&7));
    assert_eq!(extensions.get::<&str>(), Some(&"label"));
    assert_eq!(extensions.len(), 3);
}

#[test]
fn short_nonce_leaves_no_sentinel_behind() {
    let exchange =
        CspNonceLayer::new("p").rewrite_html_body().layer(()).exchange("n".to_string());
    let body = b"__CSP___CSP_NONCE__NONCE__ __CSP_NONCE____CSP_NONCE__";
    let step = exchange.rewrite_body(&mut html(), body);
    assert!(matches!(step, BodyStep::Replace(text) if text == "__CSP_nNONCE__ nn"));
}

#[test]
fn different_draws_give_different_policies() {
    let service = CspNonceLayer::new("script-src 'nonce-{nonce}'").layer(());
    let policy_of = |bytes: [u8; 16]| {
        let exchange = service.exchange(nonce_from_entropy(Ok(()), &bytes).unwrap());
        let mut headers = HeaderMap::new();
        exchange.finish_head(&mut headers).unwrap();
        policy(&headers)
    };
    assert_eq!(policy_of([1; 16]), format!("script-src 'nonce-{}'", "01".repeat(16)));
    assert_ne!(policy_of([1; 16]), policy_of([2; 16]));
}

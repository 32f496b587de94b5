use glctl::commands::auth::{can_mask, mask, normalize_token};
use glctl::commands::graph::{escape_label, sanitize_node_id, truncate};
use glctl::commands::login::{
    accepted_token, callback_decision, http_response, login_url, parse_query, percent_decode,
    percent_encode, query_get, response_for, CallbackDecision,
};
use glctl::config::config_path;
use glctl::text::{parse_u32, trim, usize_to_string};
use glctl::CliError;

#[test]
fn sanitize_keeps_only_identifier_characters() {
    assert_eq!(sanitize_node_id("gen-20260427-001"), "gen_20260427_001");
    assert_eq!(sanitize_node_id("a b/c_d"), "a_b_c_d");
    assert_eq!(sanitize_node_id("é"), "_");
}

#[test]
fn escape_label_handles_quotes_backslashes_and_newlines() {
    assert_eq!(escape_label("a\"b\\c\nd"), "a&quot;b\\\\c d");
    assert_eq!(escape_label("plain"), "plain");
}

#[test]
fn truncate_counts_characters() {
    assert_eq!(truncate("abc", 3), "abc");
    assert_eq!(truncate("abcd", 3), "abc\u{2026}");
    assert_eq!(truncate("ééé", 2), "éé\u{2026}");
}

#[test]
fn percent_encode_keeps_unreserved_bytes() {
    assert_eq!(
        percent_encode("http://localhost:8080/callback"),
        "http%3A%2F%2Flocalhost%3A8080%2Fcallback"
    );
    assert_eq!(percent_encode("a-b_c.d~e f+"), "a-b_c.d~e%20f%2B");
    assert_eq!(percent_encode("é"), "%C3%A9");
}

#[test]
fn percent_decode_cases() {
    assert_eq!(percent_decode("a+b%41%zz"), "a bA%zz");
    assert_eq!(percent_decode("%c3%a9"), "é");
    assert_eq!(percent_decode("%4"), "%4");
    assert_eq!(percent_decode("%+f"), "\u{f}");
    assert_eq!(percent_decode("%ff"), "\u{fffd}");
}

#[test]
fn percent_roundtrip_examples() {
    for s in ["", "hello world", "a&b=c", "http://localhost:1234/callback", "한국어 ✓", "%+~"] {
        assert_eq!(percent_decode(&percent_encode(s)), s);
    }
}

#[test]
fn parse_query_keeps_pairs_in_order_and_last_wins() {
    let pairs = parse_query("token=abc&state=x%20y&flag&token=def");
    assert_eq!(
        pairs,
        vec![
            ("token".to_string(), "abc".to_string()),
            ("state".to_string(), "x y".to_string()),
            ("token".to_string(), "def".to_string()),
        ]
    );
    assert_eq!(query_get(&pairs, "token"), Some("def".to_string()));
    assert_eq!(query_get(&pairs, "state"), Some("x y".to_string()));
    assert_eq!(query_get(&pairs, "missing"), None);
    assert_eq!(parse_query(""), vec![]);
    assert_eq!(parse_query("a=b=c"), vec![("a".to_string(), "b=c".to_string())]);
}

#[test]
fn callback_requests_are_decided() {
    let ok = b"GET /callback?token=tok123&state=s1 HTTP/1.1\r\nHost: localhost\r\n\r\n";
    assert_eq!(callback_decision(ok, "s1"), CallbackDecision::Accepted("tok123".to_string()));
    assert_eq!(accepted_token(callback_decision(ok, "s1")), Some("tok123".to_string()));
    assert_eq!(callback_decision(ok, "s2"), CallbackDecision::StateMismatch);
    let other = b"GET /favicon.ico HTTP/1.1\r\n\r\n";
    assert_eq!(callback_decision(other, "s1"), CallbackDecision::NotFound);
    let empty_token = b"GET /callback?token=&state=s1 HTTP/1.1\r\n\r\n";
    assert_eq!(callback_decision(empty_token, "s1"), CallbackDecision::MissingToken);
    assert_eq!(accepted_token(callback_decision(empty_token, "s1")), None);
    let no_token = b"GET /callback?state=s1 HTTP/1.1\r\n\r\n";
    assert_eq!(callback_decision(no_token, "s1"), CallbackDecision::MissingToken);
    assert_eq!(callback_decision(b"", "s1"), CallbackDecision::NotFound);
    assert_eq!(callback_decision(&[0xff, 0xfe], "s1"), CallbackDecision::NotFound);
}

#[test]
fn http_response_counts_body_bytes() {
    let (code, reason, html) = response_for(&CallbackDecision::StateMismatch);
    assert_eq!(code, 400);
    assert_eq!(reason, "Bad Request");
    let text = http_response(code, &reason, &html);
    let body = format!(
        "<!DOCTYPE html><html><head><meta charset=utf-8>\
         <title>glctl</title>\
         <style>body{{font-family:sans-serif;max-width:480px;margin:4rem auto;padding:0 1rem}}</style>\
         </head><body>{}</body></html>",
        html
    );
    let expected = format!(
        "HTTP/1.1 {} {}\r\nContent-Type: text/html; charset=utf-8\r\nContent-Length: {}\r\nConnection: close\r\n\r\n{}",
        code,
        reason,
        body.len(),
        body
    );
    assert_eq!(text, expected);
}

#[test]
fn login_url_encodes_the_redirect() {
    assert_eq!(
        login_url("https://glhub.baryon.ai", 8080, "abc"),
        "https://glhub.baryon.ai/login/cli?redirect_uri=http%3A%2F%2Flocalhost%3A8080%2Fcallback&state=abc"
    );
}

#[test]
fn mask_shows_at_most_eight_bytes() {
    assert_eq!(mask("short"), "****");
    assert_eq!(mask("abcdefgh"), "****");
    assert_eq!(mask("abcdefghij"), "abcdefgh\u{2026}****");
    assert!(can_mask("ééééé"));
    assert!(!can_mask("aaaaaaaé"));
}

#[test]
fn tokens_are_trimmed() {
    assert_eq!(normalize_token("  tok \n"), Ok("tok".to_string()));
    assert_eq!(
        normalize_token(" \t\n"),
        Err(CliError::Error("token cannot be empty".to_string()))
    );
    assert_eq!(trim("\u{3000}x y\u{a0}"), "x y");
}

#[test]
fn numbers_parse_and_print() {
    let cs: Vec<char> = "+42".chars().collect();
    assert_eq!(parse_u32(&cs), Some(42));
    let cs: Vec<char> = "4294967296".chars().collect();
    assert_eq!(parse_u32(&cs), None);
    let cs: Vec<char> = "+".chars().collect();
    assert_eq!(parse_u32(&cs), None);
    let cs: Vec<char> = "-1".chars().collect();
    assert_eq!(parse_u32(&cs), None);
    assert_eq!(usize_to_string(0), "0");
    assert_eq!(usize_to_string(1234), "1234");
}

#[test]
fn config_lives_under_home() {
    assert_eq!(config_path("/home/me"), "/home/me/.glctl/config");
}

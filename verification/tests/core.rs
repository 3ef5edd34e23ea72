use inforadar::json::{sanitize_public_json, JsonValue, SanitizeKind};
use inforadar::links::{canonicalize_url, is_public_http_url, is_tracking_param, require_public_http_url};
use inforadar::text::{public_text, truncate_chars, PUBLIC_TEXT_LIMIT};

fn text(s: &str) -> JsonValue {
    JsonValue::Text(s.to_string())
}

fn object(entries: Vec<(&str, JsonValue)>) -> JsonValue {
    JsonValue::Object(entries.into_iter().map(|(k, v)| (k.to_string(), v)).collect())
}

#[test]
fn canonical_url_removes_tracking_and_fragment() {
    let url = canonicalize_url("https://example.com/a/?utm_source=x&b=2&a=1#frag");
    assert_eq!(url, "https://example.com/a?a=1&b=2");
    let steam = canonicalize_url("https://store.steampowered.com/app/1/Game/?snr=abc");
    assert_eq!(steam, "https://store.steampowered.com/app/1/Game");
}

#[test]
fn sanitizer_rejects_raw_fields() {
    let value = object(vec![("rawFields", object(vec![("secret", text("x"))]))]);
    assert!(sanitize_public_json(&value).is_err());
}

#[test]
fn public_text_truncates_long_content() {
    let text = public_text(&"a".repeat(PUBLIC_TEXT_LIMIT + 20));
    assert!(text.chars().count() <= PUBLIC_TEXT_LIMIT + 3);
    assert!(text.ends_with("..."));
}

#[test]
fn public_url_allows_only_http() {
    assert!(is_public_http_url("https://example.com/a"));
    assert!(!is_public_http_url("javascript:alert(1)"));
}

#[test]
fn canonical_url_keeps_root_path_and_trims_input() {
    assert_eq!(canonicalize_url("  https://Example.com/  "), "https://example.com/");
    assert_eq!(canonicalize_url("https://example.com/x///"), "https://example.com/x");
    assert_eq!(canonicalize_url("https://example.com/?FBCLID=1&Ref=2"), "https://example.com/");
    assert_eq!(canonicalize_url("https://example.com/p?b=2&a=3&a=1"), "https://example.com/p?a=1&a=3&b=2");
}

#[test]
fn canonical_url_keeps_unparsable_text_trimmed() {
    assert_eq!(canonicalize_url("  not a url  "), "not a url");
}

#[test]
fn tracking_params_ignore_ascii_case() {
    assert!(is_tracking_param("utm_medium"));
    assert!(is_tracking_param("UTM_Campaign"));
    assert!(is_tracking_param("gclid"));
    assert!(is_tracking_param("mc_eid"));
    assert!(!is_tracking_param("page"));
    assert!(!is_tracking_param("utm"));
}

#[test]
fn require_public_http_url_refuses_other_schemes() {
    let ok = require_public_http_url("https://example.com/news?utm_source=test").unwrap();
    assert_eq!(ok, "https://example.com/news");
    let err = require_public_http_url("ftp://example.com/file").unwrap_err();
    assert_eq!(err.input, "ftp://example.com/file");
    assert_eq!(err.message(), "public item URL must be http/https: ftp://example.com/file");
    assert!(require_public_http_url("no url").is_err());
}

#[test]
fn truncate_chars_marks_cut_text() {
    assert_eq!(truncate_chars("abcdef", 3), "abc...");
    assert_eq!(truncate_chars("abc", 3), "abc");
    assert_eq!(truncate_chars("", 0), "");
    assert_eq!(truncate_chars("ab", 0), "...");
    assert_eq!(truncate_chars("héllo", 2), "hé...");
}

#[test]
fn public_text_strips_tags_and_collapses_whitespace() {
    assert_eq!(public_text("  <p>Hello,\n\n  <b>world</b>!</p>  "), "Hello, world!");
    assert_eq!(public_text("a<unclosed tag"), "a");
    assert_eq!(public_text("x > y"), "x y");
    assert_eq!(public_text("\u{3000}wide\u{00A0}space\t"), "wide space");
}

#[test]
fn public_text_twice_is_public_text_once() {
    let long = format!("<p>{}</p>", "word ".repeat(400));
    let once = public_text(&long);
    assert!(once.ends_with("..."));
    assert_eq!(public_text(&once), once);
    let short = public_text("  <b>Hot</b>   news ");
    assert_eq!(short, "Hot news");
    assert_eq!(public_text(&short), short);
}

#[test]
fn sanitizer_reports_paths_and_kinds() {
    let value = object(vec![
        ("ok", text("fine")),
        ("list", JsonValue::Array(vec![text("a"), text("Bearer abc")])),
    ]);
    let err = sanitize_public_json(&value).unwrap_err();
    assert_eq!(err.kind, SanitizeKind::ForbiddenMarker);
    assert_eq!(err.path, "$.list[1]");
    assert_eq!(err.message(), "public export contains forbidden value marker at $.list[1]");

    let key = object(vec![("nested", object(vec![("My_API_Key", text("x"))]))]);
    let err = sanitize_public_json(&key).unwrap_err();
    assert_eq!(err.kind, SanitizeKind::ForbiddenKey);
    assert_eq!(err.path, "$.nested.My_API_Key");

    let long = object(vec![("t", text(&"x".repeat(2401)))]);
    let err = sanitize_public_json(&long).unwrap_err();
    assert_eq!(err.kind, SanitizeKind::TextTooLong);
    assert_eq!(err.message(), "public export string too long at $.t");

    let fits = object(vec![("t", text(&"x".repeat(2400))), ("n", JsonValue::Number("3".to_string()))]);
    assert!(sanitize_public_json(&fits).is_ok());
}

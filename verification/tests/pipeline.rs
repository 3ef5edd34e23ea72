use inforadar::collect::{collect_feed, observations_from_github, source_adapter, CollectError, SourceAdapter};
use inforadar::feed_scan::feed_document_is_safe;
use inforadar::config::{
    board_file_name, default_max_items, enabled_sources, default_rate_limit, default_risk_level, default_timeout,
    validate_board_config, ConfigError,
};
use inforadar::ids::stable_id;
use inforadar::json::JsonValue;
use inforadar::model::{BoardConfig, ItemDraft, ObservationDraft, SourceConfig};
use inforadar::normalize::normalize_observation;
use inforadar::scoring::{category_weight, infer_category, score_item, source_weight, SCORE_VERSION};

fn source(id: &str, kind: &str, url: &str, max_items: usize) -> SourceConfig {
    SourceConfig {
        id: id.to_string(),
        name: "Source".to_string(),
        kind: kind.to_string(),
        enabled: true,
        url: url.to_string(),
        rate_limit_per_minute: 1,
        timeout_seconds: 1,
        max_items,
        risk_level: "stable".to_string(),
        public_fields: vec![],
    }
}

fn board(keywords: Vec<&str>, categories: Vec<&str>, sources: Vec<SourceConfig>) -> BoardConfig {
    BoardConfig {
        id: "test".to_string(),
        name: "Test".to_string(),
        description: "Test board".to_string(),
        default: true,
        keywords: keywords.into_iter().map(String::from).collect(),
        categories: categories.into_iter().map(String::from).collect(),
        sources,
    }
}

fn text(s: &str) -> JsonValue {
    JsonValue::Text(s.to_string())
}

fn object(entries: Vec<(&str, JsonValue)>) -> JsonValue {
    JsonValue::Object(entries.into_iter().map(|(k, v)| (k.to_string(), v)).collect())
}

#[test]
fn stable_id_is_hex_of_sha256_prefix() {
    assert_eq!(stable_id(&["a", "b"]), "8fb20ef63ced4145fc2e983ffe597d1d");
    assert_eq!(stable_id(&["test", "https://example.com/news"]), "2f60f167c6a1ce5ea326270ac0edc526");
    assert_eq!(stable_id(&[]), "e3b0c44298fc1c149afbf4c8996fb924");
    assert_ne!(stable_id(&["ab"]), stable_id(&["a", "b"]));
}

#[test]
fn category_is_inferred_from_clues_in_order() {
    let b = board(vec![], vec!["Tools"], vec![]);
    assert_eq!(infer_category(&b, "New PLUGIN released", ""), "Open Source");
    assert_eq!(infer_category(&b, "Asset pack", "release"), "Marketplace");
    assert_eq!(infer_category(&b, "A tutorial", ""), "Video");
    assert_eq!(infer_category(&b, "GDC talk", ""), "Talks");
    assert_eq!(infer_category(&b, "Engine release notes", ""), "Official");
    assert_eq!(infer_category(&b, "Something else", ""), "Tools");
    let empty = board(vec![], vec![], vec![]);
    assert_eq!(infer_category(&empty, "Something else", ""), "News");
}

#[test]
fn weights_follow_the_tables() {
    assert_eq!(category_weight("Official"), 20);
    assert_eq!(category_weight("Open Source"), 15);
    assert_eq!(category_weight("News"), 12);
    assert_eq!(category_weight("Talks"), 10);
    assert_eq!(category_weight("Marketplace"), 8);
    assert_eq!(category_weight("Video"), 5);
    assert_eq!(source_weight("GitHub"), 10);
    assert_eq!(source_weight("GitHub Unreal"), 10);
    assert_eq!(source_weight("Google News Unreal"), 8);
    assert_eq!(source_weight("Other"), 5);
}

fn item(title: &str, description: Option<&str>, category: &str) -> ItemDraft {
    ItemDraft {
        board_id: "test".to_string(),
        canonical_url: "https://example.com/news".to_string(),
        title: title.to_string(),
        description: description.map(String::from),
        category: category.to_string(),
        first_seen_at: "2026-06-21T00:00:00Z".to_string(),
        last_seen_at: "2026-06-21T00:00:00Z".to_string(),
    }
}

#[test]
fn score_counts_keywords_and_weights() {
    let b = board(vec!["unreal", "Engine", "godot"], vec![], vec![]);
    let it = item("Unreal Engine update", Some("A short update about Unreal Engine."), "News");
    let score = score_item(&b, "id1", &it, "Source");
    assert_eq!(score.item_id, "id1");
    assert_eq!(score.score_version, SCORE_VERSION);
    assert_eq!(score.relevance, 44);
    assert_eq!(score.rank_score, 61);
    assert_eq!(score.reason, "44 relevance, category News, source Source");
    assert_eq!(score.evidence, vec!["keyword: unreal".to_string(), "keyword: Engine".to_string()]);
}

#[test]
fn score_is_capped_at_one_hundred() {
    let kws = vec!["a", "b", "c", "d", "e", "f", "g", "h"];
    let b = board(kws, vec![], vec![]);
    let long = "abcdefgh ".repeat(10);
    let it = item("abcdefgh", Some(&long), "Official");
    let score = score_item(&b, "id", &it, "GitHub");
    assert_eq!(score.relevance, 100);
    assert_eq!(score.rank_score, 100);
    assert_eq!(score.evidence.len(), 8);
    let plain = item("xyz", None, "Other");
    let s2 = score_item(&b, "id", &plain, "x");
    assert_eq!(s2.relevance, 20);
    assert_eq!(s2.rank_score, 30);
    assert_eq!(s2.reason, "20 relevance, category Other, source x");
}

fn observation(url: &str, description: Option<&str>, category: Option<&str>, published: Option<&str>) -> ObservationDraft {
    ObservationDraft {
        source_id: "src".to_string(),
        title: "  Unreal Engine update ".to_string(),
        url: url.to_string(),
        description: description.map(String::from),
        published_at: published.map(String::from),
        category: category.map(String::from),
        raw: JsonValue::Null,
    }
}

#[test]
fn normalize_builds_item() {
    let b = board(vec![], vec!["News"], vec![]);
    let o = observation(
        "https://example.com/news?utm_source=test#top",
        Some("<p>A   short</p> update"),
        None,
        Some("2026-06-21T00:00:00Z"),
    );
    let it = normalize_observation(&b, &o, "2026-06-22T10:00:00Z");
    assert_eq!(it.board_id, "test");
    assert_eq!(it.canonical_url, "https://example.com/news");
    assert_eq!(it.title, "Unreal Engine update");
    assert_eq!(it.description, Some("A short update".to_string()));
    assert_eq!(it.category, "News");
    assert_eq!(it.first_seen_at, "2026-06-21T00:00:00Z");
    assert_eq!(it.last_seen_at, "2026-06-22T10:00:00Z");
    let o2 = observation("https://example.com/x", None, Some("Talks"), None);
    let it2 = normalize_observation(&b, &o2, "now");
    assert_eq!(it2.category, "Talks");
    assert_eq!(it2.description, None);
    assert_eq!(it2.first_seen_at, "now");
    let mut o3 = observation("https://example.com/hot", None, Some("News"), None);
    o3.title = "  <b>Hot</b>   news ".to_string();
    let it3 = normalize_observation(&b, &o3, "now");
    assert_eq!(it3.title, "Hot   news");
    o3.title = "A  B".to_string();
    assert_eq!(normalize_observation(&b, &o3, "now").title, "A  B");
}

#[test]
fn validation_reports_each_fault() {
    let good = board(vec![], vec![], vec![source("s", "rss", "https://example.com/feed.xml", 1)]);
    assert!(validate_board_config(&good).is_ok());

    let mut no_id = board(vec![], vec![], vec![]);
    no_id.id = "   ".to_string();
    assert!(matches!(validate_board_config(&no_id), Err(ConfigError::MissingBoardId)));

    let mut no_name = board(vec![], vec![], vec![]);
    no_name.name = String::new();
    assert!(matches!(validate_board_config(&no_name), Err(ConfigError::MissingBoardName)));

    let blank_source = board(vec![], vec![], vec![source(" ", "rss", "https://example.com", 1)]);
    let err = validate_board_config(&blank_source).unwrap_err();
    assert_eq!(err.message(), "source id/name are required");

    let bad_kind = board(vec![], vec![], vec![source("w", "web_list", "https://example.com", 1)]);
    let err = validate_board_config(&bad_kind).unwrap_err();
    assert_eq!(err.message(), "unsupported source kind 'web_list' for w");

    let bad_url = board(vec![], vec![], vec![
        source("ok", "github_search", "https://api.github.com/search", 1),
        source("u", "json_feed", "not a url", 1),
    ]);
    let err = validate_board_config(&bad_url).unwrap_err();
    assert!(matches!(&err, ConfigError::InvalidSourceUrl { source_id } if source_id == "u"));
    assert_eq!(err.message(), "invalid source url for u");
}

#[test]
fn defaults_match_settings() {
    assert_eq!(default_rate_limit(), 6);
    assert_eq!(default_timeout(), 20);
    assert_eq!(default_max_items(), 50);
    assert_eq!(default_risk_level(), "stable");
    assert_eq!(board_file_name("unreal"), "unreal.toml");
}

#[test]
fn only_enabled_sources_are_collected() {
    let mut off = source("off", "rss", "https://example.com/off.xml", 5);
    off.enabled = false;
    let b = board(
        vec![],
        vec![],
        vec![source("a", "rss", "https://example.com/a.xml", 5), off, source("c", "rss", "https://example.com/c.xml", 5)],
    );
    let ids: Vec<&str> = enabled_sources(&b).iter().map(|s| s.id.as_str()).collect();
    assert_eq!(ids, vec!["a", "c"]);
}

#[test]
fn adapters_follow_source_kind() {
    assert!(matches!(source_adapter("rss"), Ok(SourceAdapter::Feed)));
    assert!(matches!(source_adapter("json_feed"), Ok(SourceAdapter::Feed)));
    assert!(matches!(source_adapter("github_search"), Ok(SourceAdapter::GitHubSearch)));
    let err = source_adapter("web_list").unwrap_err();
    assert_eq!(err.message(), "unsupported source kind: web_list");
}

const RSS: &str = r#"<?xml version="1.0"?>
<rss version="2.0"><channel><title>T</title><link>https://example.com</link><description>d</description>
<item><title>First</title><link>https://example.com/1</link><description>Sum one</description></item>
<item><title>Second</title><link>https://example.com/2</link></item>
</channel></rss>"#;

#[test]
fn feed_entries_become_observations() {
    let s = source("feed", "rss", "https://example.com/feed.xml", 1);
    let obs = collect_feed(&s, RSS.as_bytes()).unwrap();
    assert_eq!(obs.len(), 1);
    assert_eq!(obs[0].source_id, "feed");
    assert_eq!(obs[0].title, "First");
    assert_eq!(obs[0].url, "https://example.com/1");
    assert_eq!(obs[0].description.as_deref(), Some("Sum one"));
    assert_eq!(obs[0].category.as_deref(), Some("News"));
    let s2 = source("feed", "rss", "https://example.com/feed.xml", 10);
    let all = collect_feed(&s2, RSS.as_bytes()).unwrap();
    assert_eq!(all.len(), 2);
    assert_eq!(all[1].title, "Second");
    assert!(all[1].description.is_none());
    assert!(matches!(collect_feed(&s, b"not a feed"), Err(CollectError::FeedParse)));
}

fn podcast(duration: &str) -> String {
    format!(
        r#"<?xml version="1.0"?>
<rss version="2.0" xmlns:itunes="http://www.itunes.com/dtds/podcast-1.0.dtd"><channel><title>P</title>
<item><title>Episode</title><link>https://example.com/e1</link><itunes:duration>{}</itunes:duration></item>
</channel></rss>"#,
        duration
    )
}

#[test]
fn feeds_with_readable_play_times_are_parsed() {
    let s = source("pod", "rss", "https://example.com/pod.xml", 10);
    let doc = podcast("01:02:03");
    assert!(feed_document_is_safe(doc.as_bytes()));
    let obs = collect_feed(&s, doc.as_bytes()).unwrap();
    assert_eq!(obs.len(), 1);
    assert_eq!(obs[0].title, "Episode");
    let long_but_safe = podcast("999999999999999");
    assert!(feed_document_is_safe(long_but_safe.as_bytes()));
    assert_eq!(collect_feed(&s, long_but_safe.as_bytes()).unwrap().len(), 1);
    assert!(feed_document_is_safe(RSS.as_bytes()));
    let named_reference = podcast("01:02:03 &amp; more");
    assert!(feed_document_is_safe(named_reference.as_bytes()));
    assert_eq!(collect_feed(&s, named_reference.as_bytes()).unwrap().len(), 1);
}

#[test]
fn feeds_with_unreadable_play_times_are_refused() {
    let s = source("pod", "rss", "https://example.com/pod.xml", 10);
    let overflowing = podcast("9999999999999999999999999");
    assert!(!feed_document_is_safe(overflowing.as_bytes()));
    let err = collect_feed(&s, overflowing.as_bytes()).unwrap_err();
    assert!(matches!(err, CollectError::UnsafeFeed));
    assert_eq!(err.message(), "feed holds a play time that cannot be read safely");
    let arabic_digits = podcast("\u{663}\u{664}");
    assert!(matches!(collect_feed(&s, arabic_digits.as_bytes()), Err(CollectError::UnsafeFeed)));
    let by_reference = podcast("&#57;&#57;");
    assert!(matches!(collect_feed(&s, by_reference.as_bytes()), Err(CollectError::UnsafeFeed)));
    let split_by_comment = podcast("99999999<!-- -->99999999");
    assert!(matches!(collect_feed(&s, split_by_comment.as_bytes()), Err(CollectError::UnsafeFeed)));
    let thumbnail = r#"<rss version="2.0" xmlns:media="http://search.yahoo.com/mrss/"><channel><title>P</title>
<item><title>E</title><media:thumbnail url="https://example.com/t.jpg" time="12345678901234567890"/></item>
</channel></rss>"#;
    assert!(!feed_document_is_safe(thumbnail.as_bytes()));
    assert!(!feed_document_is_safe(b"<rss>\0</rss>"));
}

#[test]
fn github_items_become_observations() {
    let s = source("gh", "github_search", "https://api.github.com/search", 5);
    let answer = object(vec![(
        "items",
        JsonValue::Array(vec![
            object(vec![
                ("full_name", text("a/b")),
                ("html_url", text("https://github.com/a/b")),
                ("description", text("d")),
                ("updated_at", text("2026-06-20T00:00:00Z")),
                ("stargazers_count", JsonValue::Number("5".to_string())),
            ]),
            object(vec![("name", text("no-link"))]),
            object(vec![("name", text("c")), ("html_url", text("https://github.com/c"))]),
            object(vec![("full_name", JsonValue::Null), ("name", text("skipped")), ("html_url", text("u"))]),
        ]),
    )]);
    let obs = observations_from_github(&s, &answer);
    assert_eq!(obs.len(), 2);
    assert_eq!(obs[0].title, "a/b");
    assert_eq!(obs[0].url, "https://github.com/a/b");
    assert_eq!(obs[0].description.as_deref(), Some("d"));
    assert_eq!(obs[0].published_at.as_deref(), Some("2026-06-20T00:00:00Z"));
    assert_eq!(obs[0].category.as_deref(), Some("Open Source"));
    assert_eq!(obs[1].title, "c");
    let limited = source("gh", "github_search", "https://api.github.com/search", 1);
    assert_eq!(observations_from_github(&limited, &answer).len(), 1);
    assert!(observations_from_github(&s, &JsonValue::Null).is_empty());
}

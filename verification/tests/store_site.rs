use inforadar::ids::stable_id;
use inforadar::json::{sanitize_public_json, JsonValue};
use inforadar::model::{BoardConfig, ObservationDraft, PublicIssue, PublicItem, PublicSourceHealth};
use inforadar::site::{distinct_board_ids, issue_data_path, site_manifest, title_case};
use inforadar::store::{
    archive_day_date, archive_day_items, archive_days, assemble_issue, health_from_run_results,
    import_observation, issue_id, issue_totals, item_write_for, plan_ingest, public_item_from_row,
    public_raw_subset, publish_manifest, publish_snapshot_id, record_source_outcome, run_id,
    run_outcome, SourceOutcome,
    source_display_name, source_status, split_source_names, ItemRow, ItemWrite,
};

fn text(s: &str) -> JsonValue {
    JsonValue::Text(s.to_string())
}

fn object(entries: Vec<(&str, JsonValue)>) -> JsonValue {
    JsonValue::Object(entries.into_iter().map(|(k, v)| (k.to_string(), v)).collect())
}

fn member<'a>(v: &'a JsonValue, key: &str) -> &'a JsonValue {
    v.get(key).expect("member")
}

fn board() -> BoardConfig {
    BoardConfig {
        id: "test".to_string(),
        name: "Test".to_string(),
        description: "Test board".to_string(),
        default: true,
        keywords: vec!["unreal".to_string()],
        categories: vec!["News".to_string()],
        sources: vec![],
    }
}

#[test]
fn archived_items_become_observations() {
    let item = object(vec![
        ("url", text("https://example.com/a")),
        ("title", text("A title")),
        ("source", text("Epic Games!")),
        ("description", text("<b>Hi</b>   there")),
        ("updatedAt", text("")),
        ("category", text("News")),
        ("metric", JsonValue::Number("7".to_string())),
    ]);
    let imp = import_observation(&item, "2026-06-19").unwrap();
    assert_eq!(imp.source_name, "Epic Games!");
    let o = imp.observation;
    assert_eq!(o.source_id, "imported-epic-games-");
    assert_eq!(o.title, "A title");
    assert_eq!(o.url, "https://example.com/a");
    assert_eq!(o.description.as_deref(), Some("Hi there"));
    assert_eq!(o.published_at.as_deref(), Some("2026-06-19T00:00:00Z"));
    assert_eq!(o.category.as_deref(), Some("News"));
    assert!(matches!(member(&o.raw, "metric"), JsonValue::Number(n) if n == "7"));
    assert!(matches!(member(&o.raw, "evidence"), JsonValue::Null));

    let dated = object(vec![
        ("url", text("u")),
        ("title", text("t")),
        ("updatedAt", text("2026-01-01T10:00:00Z")),
    ]);
    let o2 = import_observation(&dated, "2026-06-19").unwrap();
    assert_eq!(o2.source_name, "Imported");
    assert_eq!(o2.observation.source_id, "imported-imported");
    assert_eq!(o2.observation.published_at.as_deref(), Some("2026-01-01T10:00:00Z"));
    assert!(o2.observation.description.is_none());

    assert!(import_observation(&object(vec![("url", text("u"))]), "d").is_none());
    assert!(import_observation(&object(vec![("url", text("")), ("title", text("t"))]), "d").is_none());
}

#[test]
fn archive_index_is_read_with_defaults() {
    let index = object(vec![(
        "days",
        JsonValue::Array(vec![
            object(vec![("date", text("2026-06-18")), ("allItems", JsonValue::Array(vec![JsonValue::Null]))]),
            object(vec![]),
        ]),
    )]);
    let days = archive_days(&index);
    assert_eq!(days.len(), 2);
    assert_eq!(archive_day_date(&days[0]), "2026-06-18");
    assert_eq!(archive_day_items(&days[0]).len(), 1);
    assert_eq!(archive_day_date(&days[1]), "unknown");
    assert!(archive_day_items(&days[1]).is_empty());
    assert!(archive_days(&JsonValue::Null).is_empty());
}

#[test]
fn raw_subset_keeps_four_members() {
    let item = object(vec![("relevance", JsonValue::Number("3".to_string())), ("secret", text("x"))]);
    let raw = public_raw_subset(&item);
    match &raw {
        JsonValue::Object(es) => {
            let keys: Vec<&str> = es.iter().map(|(k, _)| k.as_str()).collect();
            assert_eq!(keys, vec!["metric", "rankScore", "relevance", "evidence"]);
        }
        _ => panic!("object expected"),
    }
    assert!(matches!(member(&raw, "relevance"), JsonValue::Number(n) if n == "3"));
}

fn observation(url: &str) -> ObservationDraft {
    ObservationDraft {
        source_id: "src".to_string(),
        title: "Unreal Engine update".to_string(),
        url: url.to_string(),
        description: Some("A short update about Unreal Engine.".to_string()),
        published_at: Some("2026-06-21T00:00:00Z".to_string()),
        category: Some("News".to_string()),
        raw: JsonValue::Null,
    }
}

#[test]
fn ingest_plan_ids_depend_on_date_not_time() {
    let b = board();
    let o = observation("https://example.com/news?utm_source=test");
    let p1 = plan_ingest(&b, "2026-06-22", "2026-06-22T01:00:00Z", &o).unwrap();
    let p2 = plan_ingest(&b, "2026-06-22", "2026-06-22T05:00:00Z", &o).unwrap();
    let p3 = plan_ingest(&b, "2026-06-21", "2026-06-21T05:00:00Z", &o).unwrap();
    assert_eq!(p1.canonical_url, "https://example.com/news");
    assert_eq!(p1.observation_id, p2.observation_id);
    assert_ne!(p1.observation_id, p3.observation_id);
    assert_eq!(p1.item_id, p3.item_id);
    assert_eq!(p1.item_id, stable_id(&["test", "https://example.com/news"]));
    assert_eq!(
        p1.observation_id,
        stable_id(&["test", "2026-06-22", "src", "https://example.com/news", "Unreal Engine update"])
    );
    assert_eq!(p1.item.last_seen_at, "2026-06-22T01:00:00Z");
    let err = plan_ingest(&b, "d", "n", &observation("mailto:a@b.c")).unwrap_err();
    assert_eq!(err.input, "mailto:a@b.c");
}

#[test]
fn links_with_the_same_canonical_form_share_an_item() {
    let b = board();
    let first = observation("https://example.com/news/?utm_source=a#top");
    let mut second = observation("  https://example.com/news?fbclid=xyz  ");
    second.source_id = "other".to_string();
    second.title = "Another headline".to_string();
    let p1 = plan_ingest(&b, "2026-06-21", "2026-06-21T01:00:00Z", &first).unwrap();
    let p2 = plan_ingest(&b, "2026-06-22", "2026-06-22T09:00:00Z", &second).unwrap();
    assert_eq!(p1.canonical_url, "https://example.com/news");
    assert_eq!(p2.canonical_url, "https://example.com/news");
    assert_eq!(p1.item_id, p2.item_id);
    assert_ne!(p1.observation_id, p2.observation_id);
    let third = observation("https://example.com/other");
    let p3 = plan_ingest(&b, "2026-06-21", "2026-06-21T01:00:00Z", &third).unwrap();
    assert_ne!(p1.item_id, p3.item_id);
}

#[test]
fn reingesting_keeps_duplicate_count() {
    // day 21: new item; day 22: new observation of the same item; day 22 again: nothing new.
    assert_eq!(item_write_for(false, 1), ItemWrite::Insert);
    assert_eq!(item_write_for(true, 1), ItemWrite::MarkSeenAgain);
    assert_eq!(item_write_for(true, 0), ItemWrite::Keep);
    assert_eq!(item_write_for(false, 0), ItemWrite::Insert);
    assert_eq!(source_display_name(Some("Source".to_string()), "src"), "Source");
    assert_eq!(source_display_name(None, "src"), "src");
}

#[test]
fn source_names_are_split_and_trimmed() {
    assert_eq!(split_source_names(" A, ,B,, C "), vec!["A", "B", "C"]);
    assert!(split_source_names("").is_empty());
    assert_eq!(split_source_names("Only"), vec!["Only"]);
}

fn row(url: &str, names: &str) -> ItemRow {
    ItemRow {
        id: "i".to_string(),
        board_id: "test".to_string(),
        title: "T".to_string(),
        url: url.to_string(),
        source_names: names.to_string(),
        category: "News".to_string(),
        description: "<i>d</i>".to_string(),
        first_seen_at: "2026-06-21".to_string(),
        last_seen_at: "2026-06-22".to_string(),
        rank_score: 50,
        relevance: 32,
        score_reason: "r".to_string(),
        evidence: vec!["keyword: unreal".to_string()],
        duplicate_count: 2,
    }
}

#[test]
fn rows_become_public_items() {
    let item = public_item_from_row(row("https://example.com/a/", "B,A")).unwrap();
    assert_eq!(item.url, "https://example.com/a");
    assert_eq!(item.source, "B");
    assert_eq!(item.sources, vec!["B", "A"]);
    assert_eq!(item.description, "d");
    assert_eq!(item.published_at, "2026-06-22");
    assert_eq!(item.status, "unread");
    assert_eq!(item.duplicate_count, 2);
    let unknown = public_item_from_row(row("https://example.com/", "")).unwrap();
    assert_eq!(unknown.source, "Unknown");
    assert!(unknown.sources.is_empty());
    assert!(public_item_from_row(row("file:///etc/passwd", "A")).is_err());
    let mut marked = row("https://example.com/b", "A");
    marked.title = "<b>Hot</b> news".to_string();
    let hot = public_item_from_row(marked).unwrap();
    assert_eq!(hot.title, "Hot news");
    assert!(!hot.title.contains('<') && !hot.title.contains('>'));
    let mut spaced = row("https://example.com/c", "A");
    spaced.title = "A  B".to_string();
    assert_eq!(public_item_from_row(spaced).unwrap().title, "A  B");
}

fn public_item(rank: i64, first_seen: &str) -> PublicItem {
    let mut item = public_item_from_row(row("https://example.com/", "A")).unwrap();
    item.rank_score = rank;
    item.first_seen_at = first_seen.to_string();
    item
}

fn health(status: &str) -> PublicSourceHealth {
    PublicSourceHealth {
        source_id: "s".to_string(),
        source: "S".to_string(),
        status: status.to_string(),
        count: 0,
        reason: String::new(),
    }
}

#[test]
fn issue_totals_count_items_and_sources() {
    let items = vec![
        public_item(70, "2026-06-22T01:00:00Z"),
        public_item(69, "2026-06-21T01:00:00Z"),
        public_item(90, "2026-06-22"),
    ];
    let hs = vec![health("failed"), health("success"), health("failed")];
    let totals = issue_totals(&items, &hs, "2026-06-22");
    assert_eq!(totals.total_items, 3);
    assert_eq!(totals.high_value_items, 2);
    assert_eq!(totals.new_items, 2);
    assert_eq!(totals.sources, 3);
    assert_eq!(totals.failed_sources, 2);
}

#[test]
fn failed_source_is_visible_in_assembled_issue() {
    let issue = assemble_issue("test", "2026-06-22", "now".to_string(), vec![], vec![health("failed")]);
    assert_eq!(issue.schema_version, 1);
    assert_eq!(issue.totals.failed_sources, 1);
    assert_eq!(issue.source_health[0].status, "failed");
    assert_eq!(issue.issue_date, "2026-06-22");
    assert_eq!(issue_id("test", "2026-06-22"), stable_id(&["test", "2026-06-22"]));
    assert_eq!(run_id("test", "d", "t"), stable_id(&["test", "d", "t"]));
    assert!(health_from_run_results(true, 1));
    assert!(!health_from_run_results(true, 0));
    assert!(!health_from_run_results(false, 3));
}

#[test]
fn run_outcome_joins_failures() {
    let ok = run_outcome(&[]);
    assert_eq!(ok.status, "success");
    assert!(ok.error.is_none());
    let partial = run_outcome(&["a: timeout".to_string(), "b: 403".to_string()]);
    assert_eq!(partial.status, "partial");
    assert_eq!(partial.error.as_deref(), Some("a: timeout; b: 403"));
    assert_eq!(source_status(0), "empty");
    assert_eq!(source_status(3), "success");
}

#[test]
fn a_failed_source_is_recorded_and_the_run_goes_on() {
    let mut failures: Vec<String> = Vec::new();
    let a = record_source_outcome(&mut failures, "good", &SourceOutcome::Collected { count: 4 });
    assert_eq!((a.status.as_str(), a.count, a.reason.as_str()), ("success", 4, ""));
    let b = record_source_outcome(
        &mut failures,
        "bad",
        &SourceOutcome::Failed { reason: "timeout".to_string() },
    );
    assert_eq!((b.status.as_str(), b.count, b.reason.as_str()), ("failed", 0, "timeout"));
    let c = record_source_outcome(&mut failures, "quiet", &SourceOutcome::Collected { count: 0 });
    assert_eq!((c.status.as_str(), c.count, c.reason.as_str()), ("empty", 0, ""));
    assert_eq!(failures, vec!["bad: timeout".to_string()]);
    let outcome = run_outcome(&failures);
    assert_eq!(outcome.status, "partial");
    assert_eq!(outcome.error.as_deref(), Some("bad: timeout"));

    let mut clean: Vec<String> = Vec::new();
    record_source_outcome(&mut clean, "good", &SourceOutcome::Collected { count: 1 });
    record_source_outcome(&mut clean, "quiet", &SourceOutcome::Collected { count: 0 });
    assert!(clean.is_empty());
    assert_eq!(run_outcome(&clean).status, "success");
}

#[test]
fn publish_snapshot_records_are_public() {
    let m = publish_manifest("public", "2026-06-22T00:00:00Z");
    assert!(sanitize_public_json(&m).is_ok());
    assert!(matches!(member(&m, "publicOnly"), JsonValue::Bool(true)));
    assert!(matches!(member(&m, "outputDir"), JsonValue::Text(t) if t == "public"));
    assert_eq!(
        publish_snapshot_id("public", "t"),
        stable_id(&["publish", "public", "t"])
    );
}

fn issue(board_id: &str, date: &str) -> PublicIssue {
    assemble_issue(board_id, date, "now".to_string(), vec![], vec![])
}

#[test]
fn title_case_upper_cases_first_character() {
    assert_eq!(title_case("unreal"), "Unreal");
    assert_eq!(title_case(""), "");
    assert_eq!(title_case("ßtraße"), "SStraße");
    assert_eq!(title_case("AI"), "AI");
}

#[test]
fn site_manifest_lists_boards_once() {
    let issues = vec![issue("unreal", "2026-06-22"), issue("ai", "2026-06-22"), issue("unreal", "2026-06-21")];
    let ids = distinct_board_ids(&issues);
    assert_eq!(ids, vec!["unreal", "ai"]);
    assert_eq!(issue_data_path("unreal", "2026-06-22"), "data/unreal/2026-06-22.json");
    let m = site_manifest(&issues);
    assert!(sanitize_public_json(&m).is_ok());
    match member(&m, "boards") {
        JsonValue::Array(bs) => {
            assert_eq!(bs.len(), 2);
            assert!(matches!(member(&bs[0], "name"), JsonValue::Text(t) if t == "Unreal"));
            assert!(matches!(member(&bs[1], "id"), JsonValue::Text(t) if t == "ai"));
        }
        _ => panic!("boards expected"),
    }
    match member(&m, "issues") {
        JsonValue::Array(is) => {
            assert_eq!(is.len(), 3);
            assert!(matches!(member(&is[2], "path"), JsonValue::Text(t) if t == "data/unreal/2026-06-21.json"));
        }
        _ => panic!("issues expected"),
    }
}

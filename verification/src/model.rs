//! The records that flow through the pipeline: board and source settings,
//! collected observations, normalized items, scores and the public issue.
use vstd::prelude::*;
use crate::json::JsonValue;

verus! {

/// The texts of a list of strings.
pub open spec fn texts(v: Seq<String>) -> Seq<Seq<char>> {
    v.map_values(|s: String| s@)
}

/// The text of an optional string, empty when absent.
pub open spec fn text_or_empty(o: Option<String>) -> Seq<char> {
    match o {
        Some(s) => s@,
        None => Seq::empty(),
    }
}

/// The text of an optional string.
pub open spec fn opt_text(o: Option<String>) -> Option<Seq<char>> {
    match o {
        Some(s) => Some(s@),
        None => None,
    }
}

/// A board: a topic with its keywords, categories and sources.
#[derive(Debug)]
pub struct BoardConfig {
    pub id: String,
    pub name: String,
    pub description: String,
    pub default: bool,
    pub keywords: Vec<String>,
    pub categories: Vec<String>,
    pub sources: Vec<SourceConfig>,
}

/// A source of a board: where and how its observations are collected.
#[derive(Debug)]
pub struct SourceConfig {
    pub id: String,
    pub name: String,
    pub kind: String,
    pub enabled: bool,
    pub url: String,
    pub rate_limit_per_minute: u32,
    pub timeout_seconds: u64,
    pub max_items: usize,
    pub risk_level: String,
    pub public_fields: Vec<String>,
}

/// One observation as a source reported it.
#[derive(Debug)]
pub struct ObservationDraft {
    pub source_id: String,
    pub title: String,
    pub url: String,
    pub description: Option<String>,
    pub published_at: Option<String>,
    pub category: Option<String>,
    pub raw: JsonValue,
}

/// An observation normalized into a board item.
#[derive(Debug)]
pub struct ItemDraft {
    pub board_id: String,
    pub canonical_url: String,
    pub title: String,
    pub description: Option<String>,
    pub category: String,
    pub first_seen_at: String,
    pub last_seen_at: String,
}

/// The rule-based score of an item.
#[derive(Debug)]
pub struct ScoreDraft {
    pub item_id: String,
    pub score_version: String,
    pub rank_score: i64,
    pub relevance: i64,
    pub reason: String,
    pub evidence: Vec<String>,
}

/// An item as published in a daily issue.
#[derive(Debug)]
pub struct PublicItem {
    pub id: String,
    pub board_id: String,
    pub title: String,
    pub url: String,
    pub source: String,
    pub sources: Vec<String>,
    pub category: String,
    pub description: String,
    pub published_at: String,
    pub first_seen_at: String,
    pub last_seen_at: String,
    pub rank_score: i64,
    pub relevance: i64,
    pub score_reason: String,
    pub evidence: Vec<String>,
    pub duplicate_count: i64,
    pub status: String,
}

/// A board's daily issue as published.
#[derive(Debug)]
pub struct PublicIssue {
    pub schema_version: u32,
    pub generated_at: String,
    pub board_id: String,
    pub issue_date: String,
    pub totals: PublicTotals,
    pub source_health: Vec<PublicSourceHealth>,
    pub items: Vec<PublicItem>,
}

/// The counts shown at the top of an issue.
#[derive(Debug)]
pub struct PublicTotals {
    pub total_items: usize,
    pub high_value_items: usize,
    pub new_items: usize,
    pub sources: usize,
    pub failed_sources: usize,
}

/// How one source fared for an issue.
#[derive(Debug)]
pub struct PublicSourceHealth {
    pub source_id: String,
    pub source: String,
    pub status: String,
    pub count: usize,
    pub reason: String,
}

} // verus!

//! Rule-based pipeline for a board-based daily briefing: text cleanup,
//! URL canonicalisation, categorisation, scoring and public-export checks.

pub mod text;
pub mod json;
pub mod links;
pub mod model;
pub mod ids;
pub mod scoring;
pub mod normalize;
pub mod config;
pub mod feed_scan;
pub mod collect;
pub mod store;
pub mod site;

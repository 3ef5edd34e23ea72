//! Board settings: validation and defaults.
use vstd::prelude::*;
use crate::links::{url_parse, WebUrl};
use crate::model::{BoardConfig, SourceConfig};
use crate::text::{concat2, eq_text, owned, push_str, trim, trim_ws};

verus! {

/// Why a board's settings were refused, as plain values.
pub enum ConfigFault {
    MissingBoardId,
    MissingBoardName,
    MissingSourceIdOrName,
    /// The source kind and the source id.
    UnsupportedSourceKind(Seq<char>, Seq<char>),
    /// The source id.
    InvalidSourceUrl(Seq<char>),
}

/// Why a board's settings were refused.
#[derive(Debug)]
pub enum ConfigError {
    MissingBoardId,
    MissingBoardName,
    MissingSourceIdOrName,
    UnsupportedSourceKind { kind: String, source_id: String },
    InvalidSourceUrl { source_id: String },
}

impl View for ConfigError {
    type V = ConfigFault;

    open spec fn view(&self) -> ConfigFault {
        match self {
            ConfigError::MissingBoardId => ConfigFault::MissingBoardId,
            ConfigError::MissingBoardName => ConfigFault::MissingBoardName,
            ConfigError::MissingSourceIdOrName => ConfigFault::MissingSourceIdOrName,
            ConfigError::UnsupportedSourceKind { kind, source_id } => ConfigFault::UnsupportedSourceKind(
                kind@,
                source_id@,
            ),
            ConfigError::InvalidSourceUrl { source_id } => ConfigFault::InvalidSourceUrl(source_id@),
        }
    }
}

impl ConfigError {
    /// The message that describes this refusal.
    pub fn message(&self) -> (r: String)
        ensures
            r@ == match self@ {
                ConfigFault::MissingBoardId => "board id is required"@,
                ConfigFault::MissingBoardName => "board name is required"@,
                ConfigFault::MissingSourceIdOrName => "source id/name are required"@,
                ConfigFault::UnsupportedSourceKind(kind, id) => "unsupported source kind '"@ + kind
                    + "' for "@ + id,
                ConfigFault::InvalidSourceUrl(id) => "invalid source url for "@ + id,
            },
    {
        match self {
            ConfigError::MissingBoardId => owned("board id is required"),
            ConfigError::MissingBoardName => owned("board name is required"),
            ConfigError::MissingSourceIdOrName => owned("source id/name are required"),
            ConfigError::UnsupportedSourceKind { kind, source_id } => {
                let mut m = concat2("unsupported source kind '", kind.as_str());
                push_str(&mut m, "' for ");
                push_str(&mut m, source_id.as_str());
                m
            },
            ConfigError::InvalidSourceUrl { source_id } => concat2(
                "invalid source url for ",
                source_id.as_str(),
            ),
        }
    }
}

/// Whether a source kind has an adapter: `rss`, `github_search` or
/// `json_feed`.
pub open spec fn is_supported_kind(kind: Seq<char>) -> bool {
    kind == "rss"@ || kind == "github_search"@ || kind == "json_feed"@
}

/// Whether `s` is empty once whitespace is trimmed.
pub open spec fn is_blank(s: Seq<char>) -> bool {
    trim_ws(s).len() == 0
}

/// The fault of one source, if any: a blank id or name, an unsupported
/// kind, or a URL that does not parse.
pub open spec fn source_fault(s: SourceConfig) -> Option<ConfigFault> {
    if is_blank(s.id@) || is_blank(s.name@) {
        Some(ConfigFault::MissingSourceIdOrName)
    } else if !is_supported_kind(s.kind@) {
        Some(ConfigFault::UnsupportedSourceKind(s.kind@, s.id@))
    } else if url_parse(s.url@) is None {
        Some(ConfigFault::InvalidSourceUrl(s.id@))
    } else {
        None
    }
}

/// The fault of the first faulty source among `sources`, if any.
pub open spec fn sources_fault(sources: Seq<SourceConfig>) -> Option<ConfigFault>
    decreases sources.len(),
{
    if sources.len() == 0 {
        None
    } else {
        match source_fault(sources[0]) {
            Some(f) => Some(f),
            None => sources_fault(sources.drop_first()),
        }
    }
}

/// The first fault of a board's settings, if any: a blank board id, a blank
/// board name, then the first faulty source.
pub open spec fn board_fault(config: BoardConfig) -> Option<ConfigFault> {
    if is_blank(config.id@) {
        Some(ConfigFault::MissingBoardId)
    } else if is_blank(config.name@) {
        Some(ConfigFault::MissingBoardName)
    } else {
        sources_fault(config.sources@)
    }
}

fn check_source(source: &SourceConfig) -> (r: Result<(), ConfigError>)
    ensures
        match r {
            Ok(()) => source_fault(*source) is None,
            Err(e) => source_fault(*source) == Some(e@),
        },
{
    let id = trim(source.id.as_str());
    let name = trim(source.name.as_str());
    if id.as_str().is_empty() || name.as_str().is_empty() {
        return Err(ConfigError::MissingSourceIdOrName);
    }
    let kind = source.kind.as_str();
    if !(eq_text(kind, "rss") || eq_text(kind, "github_search") || eq_text(kind, "json_feed")) {
        return Err(
            ConfigError::UnsupportedSourceKind {
                kind: source.kind.clone(),
                source_id: source.id.clone(),
            },
        );
    }
    match WebUrl::parse(source.url.as_str()) {
        Some(_) => Ok(()),
        None => Err(ConfigError::InvalidSourceUrl { source_id: source.id.clone() }),
    }
}

/// Checks a board's settings, reporting the first fault (see
/// [`board_fault`]).
pub fn validate_board_config(config: &BoardConfig) -> (r: Result<(), ConfigError>)
    ensures
        match r {
            Ok(()) => board_fault(*config) is None,
            Err(e) => board_fault(*config) == Some(e@),
        },
{
    let id = trim(config.id.as_str());
    if id.as_str().is_empty() {
        return Err(ConfigError::MissingBoardId);
    }
    let name = trim(config.name.as_str());
    if name.as_str().is_empty() {
        return Err(ConfigError::MissingBoardName);
    }
    let ghost ss = config.sources@;
    let mut i: usize = 0;
    proof {
        assert(ss.skip(0) == ss);
    }
    while i < config.sources.len()
        invariant
            ss == config.sources@,
            board_fault(*config) == sources_fault(ss),
            i <= ss.len(),
            sources_fault(ss.skip(i as int)) == sources_fault(ss),
        decreases ss.len() - i,
    {
        proof {
            assert(ss.skip(i as int).drop_first() == ss.skip(i + 1));
            assert(ss.skip(i as int)[0] == ss[i as int]);
        }
        match check_source(&config.sources[i]) {
            Ok(()) => {},
            Err(e) => {
                return Err(e);
            },
        }
        i = i + 1;
    }
    proof {
        assert(ss.skip(i as int).len() == 0);
    }
    Ok(())
}

/// Whether a board's settings are valid: its id and name are not blank,
/// and every source has a non-blank id and name, a supported kind and a
/// URL that parses.
pub open spec fn board_is_valid(config: BoardConfig) -> bool {
    &&& !is_blank(config.id@)
    &&& !is_blank(config.name@)
    &&& forall|i: int|
        0 <= i < config.sources@.len() ==> source_fault(#[trigger] config.sources@[i]) is None
}

proof fn lemma_sources_fault_free(sources: Seq<SourceConfig>)
    ensures
        (sources_fault(sources) is None) <==> (forall|i: int|
            0 <= i < sources.len() ==> source_fault(#[trigger] sources[i]) is None),
    decreases sources.len(),
{
    if sources.len() > 0 {
        let rest = sources.drop_first();
        lemma_sources_fault_free(rest);
        if sources_fault(sources) is None {
            assert forall|i: int| 0 <= i < sources.len() implies source_fault(
                #[trigger] sources[i],
            ) is None by {
                if i > 0 {
                    assert(sources[i] == rest[i - 1]);
                }
            }
        }
        if forall|i: int| 0 <= i < sources.len() ==> source_fault(#[trigger] sources[i]) is None {
            assert forall|i: int| 0 <= i < rest.len() implies source_fault(#[trigger] rest[i])
                is None by {
                assert(rest[i] == sources[i + 1]);
            }
        }
    }
}

/// Validation accepts exactly the valid boards (see [`board_is_valid`]).
pub proof fn lemma_validation_accepts_exactly_valid(config: BoardConfig)
    ensures
        (board_fault(config) is None) <==> board_is_valid(config),
{
    lemma_sources_fault_free(config.sources@);
}

/// The sources of a board that are collected: the enabled ones, in order.
pub open spec fn enabled_of(sources: Seq<SourceConfig>) -> Seq<SourceConfig> {
    sources.filter(|s: SourceConfig| s.enabled)
}

/// The enabled sources of `config`, in order (see [`enabled_of`]).
pub fn enabled_sources<'a>(config: &'a BoardConfig) -> (r: Vec<&'a SourceConfig>)
    ensures
        r@.map_values(|s: &SourceConfig| *s) == enabled_of(config.sources@),
{
    let ghost ss = config.sources@;
    let mut out: Vec<&'a SourceConfig> = Vec::new();
    let mut i: usize = 0;
    while i < config.sources.len()
        invariant
            ss == config.sources@,
            i <= ss.len(),
            out@.map_values(|s: &SourceConfig| *s) == enabled_of(ss.take(i as int)),
        decreases ss.len() - i,
    {
        let s = &config.sources[i];
        let ghost before = out@;
        proof {
            reveal(Seq::filter);
            assert(ss.take(i + 1).drop_last() == ss.take(i as int));
            assert(ss.take(i + 1).last() == *s);
        }
        if s.enabled {
            out.push(s);
            proof {
                assert(out@.map_values(|s: &SourceConfig| *s) =~= before.map_values(
                    |s: &SourceConfig| *s,
                ).push(*s));
            }
        }
        i = i + 1;
    }
    proof {
        assert(ss.take(ss.len() as int) == ss);
    }
    out
}

// ---------------------------------------------------------------------------
// Defaults for settings a board file leaves out.
/// The default rate limit of a source, per minute.
pub fn default_rate_limit() -> (r: u32)
    ensures
        r == 6,
{
    6
}

/// The default request timeout of a source, in seconds.
pub fn default_timeout() -> (r: u64)
    ensures
        r == 20,
{
    20
}

/// The default number of items kept from one collection of a source.
pub fn default_max_items() -> (r: usize)
    ensures
        r == 50,
{
    50
}

/// The default risk level of a source.
pub fn default_risk_level() -> (r: String)
    ensures
        r@ == "stable"@,
{
    owned("stable")
}

/// The file name that holds the settings of board `id`.
pub fn board_file_name(id: &str) -> (r: String)
    ensures
        r@ == id@ + ".toml"@,
{
    concat2(id, ".toml")
}

/// A source passes validation exactly when its id and name are not blank
/// once trimmed, its kind is `rss`, `github_search` or `json_feed`, and its
/// URL parses; the faults are reported in that order.
pub proof fn lemma_source_rules(s: SourceConfig)
    ensures
        (source_fault(s) is None) <==> (trim_ws(s.id@).len() > 0 && trim_ws(s.name@).len() > 0
            && (s.kind@ == "rss"@ || s.kind@ == "github_search"@ || s.kind@ == "json_feed"@)
            && url_parse(s.url@) is Some),
        (trim_ws(s.id@).len() == 0 || trim_ws(s.name@).len() == 0) ==> source_fault(s) == Some(
            ConfigFault::MissingSourceIdOrName,
        ),
        (trim_ws(s.id@).len() > 0 && trim_ws(s.name@).len() > 0 && !(s.kind@ == "rss"@
            || s.kind@ == "github_search"@ || s.kind@ == "json_feed"@)) ==> source_fault(s)
            == Some(ConfigFault::UnsupportedSourceKind(s.kind@, s.id@)),
        (trim_ws(s.id@).len() > 0 && trim_ws(s.name@).len() > 0 && (s.kind@ == "rss"@
            || s.kind@ == "github_search"@ || s.kind@ == "json_feed"@) && url_parse(s.url@)
            is None) ==> source_fault(s) == Some(ConfigFault::InvalidSourceUrl(s.id@)),
{
}

} // verus!

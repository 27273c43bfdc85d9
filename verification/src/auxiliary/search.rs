//! Search: commands, settings and results.
use crate::json::Json;
use crate::provider_extension::ProviderExtension;
use crate::response_item::ResponseItem;
use vstd::prelude::*;

verus! {

#[derive(Debug, Clone, PartialEq, Eq)]
pub struct SearchRequest {
    pub id: String,
    pub model: String,
    pub reasoning: Option<Json>,
    pub input: Option<SearchInput>,
    pub commands: Option<SearchCommands>,
    pub settings: Option<SearchSettings>,
    pub max_output_tokens: Option<u64>,
}

#[derive(Debug, Clone, PartialEq, Eq)]
pub enum SearchInput {
    Text(String),
    Items(Vec<ResponseItem>),
}

#[derive(Debug, Clone, PartialEq, Eq, Default)]
pub struct SearchCommands {
    pub search_query: Option<Vec<SearchQuery>>,
    pub image_query: Option<Vec<SearchQuery>>,
    pub open: Option<Vec<SearchOpenOperation>>,
    pub click: Option<Vec<SearchClickOperation>>,
    pub find: Option<Vec<SearchFindOperation>>,
    pub screenshot: Option<Vec<SearchScreenshotOperation>>,
    pub finance: Option<Vec<SearchFinanceOperation>>,
    pub weather: Option<Vec<SearchWeatherOperation>>,
    pub sports: Option<Vec<SearchSportsOperation>>,
    pub time: Option<Vec<SearchTimeOperation>>,
    pub response_length: Option<SearchResponseLength>,
}

#[derive(Debug, Clone, PartialEq, Eq)]
pub struct SearchQuery {
    pub q: String,
    pub recency: Option<u64>,
    pub domains: Option<Vec<String>>,
}

#[derive(Debug, Clone, PartialEq, Eq)]
pub struct SearchOpenOperation {
    pub ref_id: String,
    pub lineno: Option<u64>,
}

#[derive(Debug, Clone, PartialEq, Eq)]
pub struct SearchClickOperation {
    pub ref_id: String,
    pub id: u64,
}

#[derive(Debug, Clone, PartialEq, Eq)]
pub struct SearchFindOperation {
    pub ref_id: String,
    pub pattern: String,
}

#[derive(Debug, Clone, PartialEq, Eq)]
pub struct SearchScreenshotOperation {
    pub ref_id: String,
    pub pageno: u64,
}

#[derive(Debug, Clone, PartialEq, Eq)]
pub struct SearchFinanceOperation {
    pub ticker: String,
    pub asset_type: SearchFinanceAssetType,
    pub market: Option<String>,
}

#[derive(Debug, Clone, Copy, PartialEq, Eq, Structural)]
pub enum SearchFinanceAssetType {
    Equity,
    Fund,
    Crypto,
    Index,
}

#[derive(Debug, Clone, PartialEq, Eq)]
pub struct SearchWeatherOperation {
    pub location: String,
    pub start: Option<String>,
    pub duration: Option<u64>,
}

#[derive(Debug, Clone, PartialEq, Eq)]
pub struct SearchSportsOperation {
    pub tool: Option<SearchSportsToolName>,
    pub function: SearchSportsFunction,
    pub league: SearchSportsLeague,
    pub team: Option<String>,
    pub opponent: Option<String>,
    pub date_from: Option<String>,
    pub date_to: Option<String>,
    pub num_games: Option<u64>,
    pub locale: Option<String>,
}

#[derive(Debug, Clone, Copy, PartialEq, Eq, Structural)]
pub enum SearchSportsToolName {
    Sports,
}

#[derive(Debug, Clone, Copy, PartialEq, Eq, Structural)]
pub enum SearchSportsFunction {
    Schedule,
    Standings,
}

#[derive(Debug, Clone, Copy, PartialEq, Eq, Structural)]
pub enum SearchSportsLeague {
    Nba,
    Wnba,
    Nfl,
    Nhl,
    Mlb,
    Epl,
    Ncaamb,
    Ncaawb,
    Ipl,
}

#[derive(Debug, Clone, PartialEq, Eq)]
pub struct SearchTimeOperation {
    pub utc_offset: String,
}

#[derive(Debug, Clone, PartialEq, Eq, Default)]
pub struct SearchSettings {
    pub user_location: Option<SearchApproximateLocation>,
    pub search_context_size: Option<SearchContextSize>,
    pub filters: Option<SearchFilters>,
    pub image_settings: Option<SearchImageSettings>,
    pub allowed_callers: Option<Vec<SearchAllowedCaller>>,
    pub external_web_access: Option<SearchExternalWebAccess>,
}

#[derive(Debug, Clone, PartialEq, Eq)]
pub struct SearchApproximateLocation {
    pub location_type: SearchLocationType,
    pub country: Option<String>,
    pub region: Option<String>,
    pub city: Option<String>,
    pub timezone: Option<String>,
}

#[derive(Debug, Clone, Copy, PartialEq, Eq, Structural)]
pub enum SearchLocationType {
    Approximate,
}

#[derive(Debug, Clone, Copy, PartialEq, Eq, Structural)]
pub enum SearchContextSize {
    Low,
    Medium,
    High,
}

#[derive(Debug, Clone, PartialEq, Eq, Default)]
pub struct SearchFilters {
    pub allowed_domains: Option<Vec<String>>,
    pub blocked_domains: Option<Vec<String>>,
}

#[derive(Debug, Clone, PartialEq, Eq, Default)]
pub struct SearchImageSettings {
    pub max_results: Option<u64>,
    pub caption: Option<bool>,
}

#[derive(Debug, Clone, Copy, PartialEq, Eq, Structural)]
pub enum SearchAllowedCaller {
    Direct,
    Shell,
    CodeInterpreter,
}

#[derive(Debug, Clone, Copy, PartialEq, Eq, Structural)]
pub enum SearchExternalWebAccessMode {
    Cached,
    Indexed,
    Live,
}

#[derive(Debug, Clone, Copy, PartialEq, Eq, Structural)]
pub enum SearchExternalWebAccess {
    Boolean(bool),
    Mode(SearchExternalWebAccessMode),
}

#[derive(Debug, Clone, Copy, PartialEq, Eq, Structural)]
pub enum SearchResponseLength {
    Short,
    Medium,
    Long,
}

#[derive(Debug, Clone, PartialEq, Eq, Default)]
pub struct SearchPagination {
    pub next_page: Option<String>,
    pub has_more: Option<bool>,
}

#[derive(Clone, PartialEq, Eq)]
pub struct SearchResponse {
    pub encrypted_output: Option<String>,
    pub output: String,
    pub results: Option<Vec<Json>>,
    pub items: Option<Vec<ResponseItem>>,
    pub pagination: SearchPagination,
    pub metadata: ProviderExtension,
}

} // verus!

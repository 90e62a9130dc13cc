//! Field-level comparison of two captured HTTP traffic recordings: records are
//! aligned across the two captures and each aligned pair is classified, with
//! exemptions taken from a whitelist configuration.
pub mod align;
pub mod compare;
pub mod detail;
pub mod json;
pub mod normalize;
pub mod record;
pub mod schema;
pub mod text;
pub mod url_parts;
pub mod whitelist;

pub use align::{
    align_requests, align_requests_like_vscode, align_requests_like_vscode_with_whitelist,
    align_requests_with_whitelist, AlignedPair,
};
pub use compare::{compare_requests, compare_requests_with_whitelist, ComparisonResult, Verdict};
pub use detail::{
    create_detailed_comparison, create_detailed_comparison_with_whitelist, format_headers,
    format_params, format_raw_request, ComparisonSection, DetailedComparison, DiffLine,
};
pub use json::{format_json_string, sort_json_keys, JsonValue};
pub use normalize::{
    from_raw_entry, normalize_entries, parse_har_document, parse_har_file, HarDocument, RawEntry,
    RawHeader,
};
pub use record::{HarFile, HarRequest};
pub use schema::ParseError;
pub use whitelist::{parse_whitelist_config, LocalWhitelistRule, WhitelistConfig, WhitelistRules};

//! Usage limits of the Codex and Gemini command-line tools: the replies of
//! their services turned into one report, filtered by provider and model,
//! and written for people.

use vstd::prelude::*;

pub mod text;
pub mod json;
pub mod model;
pub mod provider;
pub mod filters;
pub mod numeric;
pub mod decimal;
pub mod time;
pub mod normalize;
pub mod order;
pub mod collect;
pub mod protocol;
pub mod render;
pub mod js;
pub mod commands;

pub use crate::filters::{
    apply_report_filters, finish_report, model_matches_terms, normalized_filter_terms,
    provider_is_selected, report_has_error, validate_report_filters, FilterError,
};
pub use crate::json::{JsonNumber, JsonValue};
pub use crate::model::{
    CollectOptions, CreditsStatus, LimitWindowStatus, ModelLimit, ProviderStatus, Report,
    ReportFilters,
};
pub use crate::normalize::{normalize_codex_rate_limit, normalize_gemini_quota_bucket};
pub use crate::provider::CliProvider;
pub use crate::render::render_human_report;

verus! {

} // verus!

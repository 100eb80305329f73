//! The request-facing rules: error taxonomy, the reverse-proxy routing and
//! body rewriting, the model-listing aggregation, and the log endpoint's
//! formatting decisions.

mod catchall;
mod models;
mod open_ai;
mod result;

pub use catchall::{
    RouteBody, RoutePlan, is_json_content_type, route_by_header, route_by_json_body,
    spec_bearer_of, spec_body_alias, spec_candidate_alias, spec_obj_get, spec_rewritable,
    spec_rewritten, spec_set_model,
};
pub use models::{
    format_logs_json, format_logs_plain, resolve_alias_text, spec_logs_json_seq, spec_plain_lines,
};
pub use open_ai::{
    aggregate_v1_models, provider_keys, spec_collect_items, spec_data_items, spec_dedup_keys,
    spec_find_item, spec_key_of, spec_rename_item,
};
pub use result::ApiError;

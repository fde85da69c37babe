mod config;
mod search;
mod text;

pub use config::{
    invalid_option_message, not_enough_message, too_many_message, Config, IGNORE_CASE_FLAG, USAGE,
};
pub use search::{
    lemma_case_insensitive_covers_case_sensitive, lemma_case_sensitive_reports_only_holding_lines,
    line_matches, lines_of, matches_upto, matches_view, numbered, search, search_case_insensitive,
    search_case_sensitive, search_result, strip_cr, Match,
};
pub use text::{chars_of, contains, contains_chars, contains_seq, lower_of, occurs_at, same_chars};

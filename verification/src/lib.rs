//! Fingerprint matching engine for adaptive video streams.
//!
//! A fingerprint is a fixed-point time series derived from the byte-count
//! trace of a stream; a query fingerprint is matched against a catalog of
//! known templates with a partial subsequence dynamic-time-warping search,
//! and the catalog entries are ranked by their best-aligning resolution.

mod builder;
mod fingerprint;
mod laws;
mod pdtw;
mod ranker;

pub use builder::Delta;
pub use builder::NetworkAccumulator;
pub use builder::sat_add;
pub use builder::spec_sat_add;
pub use builder::unit_deltas;
pub use builder::unit_magnitude;
pub use fingerprint::BuildError;
pub use fingerprint::Fingerprint;
pub use fingerprint::MAX_LEN;
pub use fingerprint::SCALE;
pub use fingerprint::fp_wf;
pub use laws::lemma_const_extension_keeps_bound;
pub use laws::lemma_contained_query_scores_zero;
pub use laws::lemma_extension_never_worsens;
pub use laws::lemma_min_cost_unique;
pub use laws::lemma_score_infinite_iff_shorter;
pub use laws::sub_window_ok;
pub use pdtw::Score;
pub use pdtw::abs_diff;
pub use pdtw::cost_opt;
pub use pdtw::ext_add;
pub use pdtw::ext_le;
pub use pdtw::ext_min;
pub use pdtw::grid;
pub use pdtw::is_min_cost;
pub use pdtw::partial_dtw;
pub use pdtw::score_cost;
pub use pdtw::score_le;
pub use pdtw::score_le_exec;
pub use pdtw::score_wf;
pub use pdtw::searched_cost;
pub use pdtw::window_cost;
pub use pdtw::window_ok;
pub use pdtw::window_score;
pub use ranker::Catalog;
pub use ranker::CatalogEntry;
pub use ranker::RankedEntry;
pub use ranker::Stream;
pub use ranker::StreamScore;
pub use ranker::entry_index_present;
pub use ranker::entry_key_le;
pub use ranker::entry_result_ok;
pub use ranker::key_le;
pub use ranker::label_matches;
pub use ranker::rank_catalog;
pub use ranker::score_entry;
pub use ranker::stream_index_present;
pub use ranker::stream_key_le;
pub use ranker::stream_result_ok;
pub use ranker::streams_wf;
pub use ranker::top_k;
pub use ranker::verify_match;

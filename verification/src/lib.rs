//! An interval-sharded secondary ranking index.
//!
//! Entries are `(ranking, target, tag)` triples stored as edges of an external
//! graph substrate. Rankings are bucketed into fixed-width intervals; each
//! interval is one shard, addressed by a path name derived from the interval
//! number. This crate holds the index logic itself: the shard locator, the tag
//! codec, and the traversal that answers paginated range queries. All calls
//! into the substrate (creating nodes, listing children, creating, listing and
//! deleting edges) are performed by the embedding application, which hands the
//! results to this crate as plain values.
mod codec;
mod decimal;
mod engine;
mod laws;
mod locator;
mod query;
mod ranking;
mod types;

pub use codec::lemma_tag_round_trip;
pub use codec::ranking_to_tag;
pub use codec::spec_decode_tag;
pub use codec::spec_decoded_view;
pub use codec::spec_encode_tag;
pub use codec::tag_to_ranking;
pub use decimal::i64_to_decimal;
pub use decimal::lemma_parse_render_i64;
pub use decimal::parse_i64_decimal;
pub use decimal::spec_parse_i64;
pub use decimal::spec_render_i64;
pub use engine::lemma_links_to_delete_exact;
pub use engine::lemma_links_to_delete_none;
pub use engine::spec_links_to_delete;
pub use laws::StoreModel;
pub use laws::lemma_chunk_at_least_count;
pub use laws::lemma_delete_ranking_idempotent;
pub use laws::lemma_insert_then_query_round_trip;
pub use laws::spec_store_delete;
pub use laws::spec_store_insert;
pub use locator::interval_pairs_wf;
pub use locator::lemma_interval_keys_wf;
pub use locator::spec_interval_keys;
pub use locator::spec_interval_leaf;
pub use locator::spec_ranking_interval;
pub use locator::spec_ranking_path;
pub use locator::spec_leaves;
pub use locator::spec_pairs;
pub use locator::spec_root_path_name;
pub use locator::spec_trunc_div;
pub use query::ChunkQuery;
pub use query::decode_links;
pub use query::initial_interval_index;
pub use query::is_inside_query_range;
pub use query::spec_decode_links;
pub use query::spec_in_range;
pub use query::spec_initial_interval_index;
pub use query::spec_chunk_from;
pub use query::spec_chunk_shards;
pub use query::spec_children;
pub use query::spec_get_ranking_chunk;
pub use query::spec_links;
pub use query::spec_child_names;
pub use query::spec_entries;
pub use query::spec_merge_entries;
pub use query::spec_shard_keys;
pub use ranking::Ranking;
pub use ranking::RankingModel;
pub use ranking::ranking_len;
pub use ranking::rm_insert;
pub use ranking::rm_lookup;
pub use ranking::rm_total;
pub use ranking::rm_wf;
pub use ranking::spec_group;
pub use types::CodecError;
pub use types::GetRankingCursor;
pub use types::GetRankingDirection;
pub use types::HashWithTag;
pub use types::HashWithTagV;
pub use types::Link;
pub use types::LinkV;
pub use types::RankingIndex;
pub use types::spec_opt_bytes;
pub use types::RankingTag;


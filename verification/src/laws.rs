//! What the index guarantees end to end.
//!
//! The substrate is modelled by the value the query side already works on:
//! the namespace's children, each a leaf name with its current edges. The
//! write side's net effect on that value follows the substrate contract the
//! code relies on — creating an entry appends one edge to the shard node
//! named for the entry's ranking, materializing the node first if need be;
//! deleting removes every edge of that node that points at the target,
//! since [`crate::engine`] selects exactly those and each edge identifier
//! names one edge. The theorems here relate those effects to the query.
use crate::codec::lemma_tag_round_trip;
use crate::codec::spec_encode_tag;
use crate::decimal::lemma_parse_render_i64;
use crate::decimal::spec_parse_i64;
use crate::locator::lemma_ranking_interval_fits;
use crate::locator::spec_interval_keys;
use crate::locator::spec_interval_keys_from;
use crate::locator::spec_interval_leaf;
use crate::locator::spec_interval_put;
use crate::locator::spec_ranking_interval;
use crate::query::spec_child_names;
use crate::query::spec_chunk_from;
use crate::query::spec_chunk_shards;
use crate::query::spec_decode_links;
use crate::query::spec_decode_links_from;
use crate::query::spec_get_ranking_chunk;
use crate::query::spec_in_range;
use crate::query::spec_initial_interval_index;
use crate::query::spec_merge_entries;
use crate::query::spec_shard_keys;
use crate::ranking::RankingModel;
use crate::ranking::lemma_rm_insert_total;
use crate::ranking::rm_insert;
use crate::ranking::rm_total;
use crate::ranking::rm_wf;
use crate::query::lemma_merge_entries_grows;
use crate::types::CodecError;
use crate::types::GetRankingCursor;
use crate::types::GetRankingDirection;
use crate::types::HashWithTagV;
use crate::types::LinkV;
use vstd::prelude::*;

verus! {

/// The modelled substrate: the namespace's children, each its leaf name
/// and its current edges.
pub type StoreModel = Seq<(Seq<u8>, Seq<LinkV>)>;

/// The net effect of creating an entry: one new edge, carrying the encoded
/// tag, on the shard node named for the entry's ranking; the node itself
/// appears if it was absent.
pub open spec fn spec_store_insert(
    children: StoreModel,
    width: u64,
    target: Seq<u8>,
    ranking: i64,
    custom_tag: Option<Seq<u8>>,
    edge_id: Seq<u8>,
) -> StoreModel {
    let leaf = spec_interval_leaf(ranking, width);
    let link = LinkV {
        create_link_hash: edge_id,
        target: target,
        tag: spec_encode_tag(ranking, custom_tag),
    };
    if exists|j: int| 0 <= j < children.len() && (#[trigger] children[j]).0 == leaf {
        let j = choose|j: int| 0 <= j < children.len() && (#[trigger] children[j]).0 == leaf;
        children.update(j, (leaf, children[j].1.push(link)))
    } else {
        children.push((leaf, seq![link]))
    }
}

/// The net effect of deleting a `(target, ranking)` pair: every edge of the
/// shard node named for `ranking` that points at `target` is gone; every
/// other node, and every other edge, stands.
pub open spec fn spec_store_delete(
    children: StoreModel,
    width: u64,
    target: Seq<u8>,
    ranking: i64,
) -> StoreModel {
    let leaf = spec_interval_leaf(ranking, width);
    children.map_values(
        |c: (Seq<u8>, Seq<LinkV>)|
            if c.0 == leaf {
                (c.0, c.1.filter(|l: LinkV| l.target != target))
            } else {
                c
            },
    )
}

/// A filter that keeps everything changes nothing.
proof fn lemma_filter_keeps_all(s: Seq<LinkV>, pred: spec_fn(LinkV) -> bool)
    requires
        forall|i: int| 0 <= i < s.len() ==> pred(#[trigger] s[i]),
    ensures
        s.filter(pred) == s,
    decreases s.len(),
{
    reveal(Seq::filter);
    if s.len() > 0 {
        lemma_filter_keeps_all(s.drop_last(), pred);
        assert(s.drop_last().push(s.last()) =~= s);
    }
}

/// Deleting a pair that was never created leaves the store exactly as it
/// was: no node gains or loses an edge.
pub proof fn lemma_delete_ranking_idempotent(
    children: StoreModel,
    width: u64,
    target: Seq<u8>,
    ranking: i64,
)
    requires
        forall|j: int, i: int|
            0 <= j < children.len() && (#[trigger] children[j]).0 == spec_interval_leaf(
                ranking,
                width,
            ) && 0 <= i < children[j].1.len() ==> (#[trigger] children[j].1[i]).target != target,
    ensures
        spec_store_delete(children, width, target, ranking) == children,
{
    let leaf = spec_interval_leaf(ranking, width);
    let res = spec_store_delete(children, width, target, ranking);
    assert forall|j: int| 0 <= j < children.len() implies res[j] == children[j] by {
        if children[j].0 == leaf {
            lemma_filter_keeps_all(children[j].1, |l: LinkV| l.target != target);
        }
    }
    assert(res =~= children);
}

/// Inserting one entry into an empty index and then querying it, in either
/// direction, with any requested count of at least one and no cursor,
/// returns exactly that entry under exactly its ranking.
pub proof fn lemma_insert_then_query_round_trip(
    width: u64,
    target: Seq<u8>,
    ranking: i64,
    custom_tag: Option<Seq<u8>>,
    edge_id: Seq<u8>,
    direction: GetRankingDirection,
    count: int,
)
    requires
        1 <= width <= i64::MAX as u64,
        count >= 1,
    ensures
        spec_get_ranking_chunk(
            spec_store_insert(Seq::empty(), width, target, ranking, custom_tag, edge_id),
            direction,
            count,
            None,
        ) == Ok::<_, CodecError>(
            seq![(ranking, seq![HashWithTagV { hash: target, tag: custom_tag }])],
        ),
{
    let leaf = spec_interval_leaf(ranking, width);
    let link = LinkV {
        create_link_hash: edge_id,
        target: target,
        tag: spec_encode_tag(ranking, custom_tag),
    };
    let store = spec_store_insert(Seq::empty(), width, target, ranking, custom_tag, edge_id);
    assert(store =~= seq![(leaf, seq![link])]);

    // The locator sees the one shard, under its rendered name.
    lemma_ranking_interval_fits(ranking, width);
    let shard_num = spec_ranking_interval(ranking, width) as i64;
    lemma_parse_render_i64(shard_num);
    let names = spec_child_names(store);
    assert(names =~= seq![leaf]);
    assert(spec_parse_i64(names[0]) == Some(shard_num));
    let pairs = spec_interval_keys(names);
    assert(spec_interval_put(Seq::empty(), shard_num, 0) =~= seq![(shard_num, 0int)]);
    assert(spec_interval_keys_from(names, 1, seq![(shard_num, 0int)]) == seq![(shard_num, 0int)]);
    assert(pairs == seq![(shard_num, 0int)]);

    let shards = spec_chunk_shards(store);
    assert(shards =~~= seq![(shard_num, seq![link])]);
    let keys = spec_shard_keys(shards);
    assert(keys =~= seq![shard_num]);

    // Whatever the direction, the walk starts at the only shard.
    let start = spec_initial_interval_index(keys, direction, None);
    assert(start == 0);

    // The one shard decodes back to the one entry.
    lemma_tag_round_trip(ranking, custom_tag);
    let hv = HashWithTagV { hash: target, tag: custom_tag };
    assert(spec_decode_links_from(shards[0].1, 1) == Ok::<_, CodecError>(
        Seq::<(i64, HashWithTagV)>::empty(),
    ));
    assert(seq![(ranking, hv)] + Seq::<(i64, HashWithTagV)>::empty() =~= seq![(ranking, hv)]);
    assert(spec_decode_links(shards[0].1) == Ok::<_, CodecError>(seq![(ranking, hv)]));

    // Merging it into the empty result files it under its ranking.
    let emp = Seq::<(i64, Seq<HashWithTagV>)>::empty();
    assert(rm_total(emp) == 0);
    let merged = spec_merge_entries(emp, seq![(ranking, hv)], direction, None);
    assert(spec_in_range(ranking, direction, None));
    assert(seq![(ranking, hv)].drop_first() =~= Seq::<(i64, HashWithTagV)>::empty());
    assert(rm_insert(emp, ranking, hv) == seq![(ranking, seq![hv])]);
    assert(spec_merge_entries(
        seq![(ranking, seq![hv])],
        Seq::<(i64, HashWithTagV)>::empty(),
        direction,
        None,
    ) == seq![(ranking, seq![hv])]);
    assert(merged == seq![(ranking, seq![hv])]);
    lemma_rm_insert_total(emp, ranking, hv);
    assert(rm_total(merged) == 1);

    // One step collects it; the next stop ends the walk either way.
    let step = if direction == GetRankingDirection::Ascendent {
        1int
    } else {
        -1int
    };
    assert(spec_chunk_from(shards, direction, count, None, step, merged) == Ok::<
        _,
        CodecError,
    >(merged));
    assert(spec_chunk_from(shards, direction, count, None, 0, emp) == Ok::<_, CodecError>(merged));
}

/// The walk never under-delivers: when it returns fewer than `count`
/// entries, no larger count could have returned more — the index, from the
/// cursor's starting shard onward, was exhausted. (It may over-deliver,
/// since whole shards are merged.)
pub proof fn lemma_chunk_at_least_count(
    children: StoreModel,
    direction: GetRankingDirection,
    count: int,
    larger: int,
    maybe_cursor: Option<GetRankingCursor>,
)
    requires
        count <= larger,
        spec_get_ranking_chunk(children, direction, count, maybe_cursor) is Ok,
    ensures
        rm_total(spec_get_ranking_chunk(children, direction, count, maybe_cursor)->Ok_0) >= count
            || spec_get_ranking_chunk(children, direction, larger, maybe_cursor)
            == spec_get_ranking_chunk(children, direction, count, maybe_cursor),
{
    let shards = spec_chunk_shards(children);
    let start = spec_initial_interval_index(spec_shard_keys(shards), direction, maybe_cursor);
    lemma_chunk_from_at_least(
        shards,
        direction,
        count,
        larger,
        maybe_cursor,
        start,
        Seq::empty(),
    );
}

/// The inductive heart of [`lemma_chunk_at_least_count`], along the walk.
proof fn lemma_chunk_from_at_least(
    shards: Seq<(i64, Seq<LinkV>)>,
    direction: GetRankingDirection,
    count: int,
    larger: int,
    maybe_cursor: Option<GetRankingCursor>,
    idx: int,
    acc: RankingModel,
)
    requires
        count <= larger,
        rm_wf(acc),
        spec_chunk_from(shards, direction, count, maybe_cursor, idx, acc) is Ok,
    ensures
        rm_total(spec_chunk_from(shards, direction, count, maybe_cursor, idx, acc)->Ok_0)
            >= count || spec_chunk_from(shards, direction, larger, maybe_cursor, idx, acc)
            == spec_chunk_from(shards, direction, count, maybe_cursor, idx, acc),
    decreases
            if direction == GetRankingDirection::Ascendent {
                shards.len() - idx
            } else {
                idx + 1
            },
{
    if rm_total(acc) >= count || idx < 0 || idx >= shards.len() {
    } else {
        match spec_decode_links(shards[idx].1) {
            Err(_) => {},
            Ok(entries) => {
                let merged = spec_merge_entries(acc, entries, direction, maybe_cursor);
                let step = if direction == GetRankingDirection::Ascendent {
                    idx + 1
                } else {
                    idx - 1
                };
                lemma_merge_entries_grows(acc, entries, direction, maybe_cursor);
                lemma_chunk_from_at_least(
                    shards,
                    direction,
                    count,
                    larger,
                    maybe_cursor,
                    step,
                    merged,
                );
            },
        }
    }
}

} // verus!

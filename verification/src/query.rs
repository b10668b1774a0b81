//! The paginated range query.
//!
//! A query walks the materialized shards one at a time in the requested
//! direction, starting at the shard the cursor selects, decodes each shard's
//! edges, keeps those the cursor admits, and merges them into the ordered
//! result, until at least `count` entries are collected or the walk steps
//! off the end of the shard list. A whole shard is merged per step, so the
//! result may hold more than `count` entries; it holds fewer only when the
//! walk ran out of shards.
use crate::codec::spec_decode_tag;
use crate::codec::tag_to_ranking;
use crate::locator::interval_pairs_wf;
use crate::locator::lemma_interval_keys_wf;
use crate::locator::spec_interval_keys;
use crate::locator::spec_leaves;
use crate::locator::spec_pairs;
use crate::ranking::Ranking;
use crate::ranking::RankingModel;
use crate::ranking::lemma_rm_insert_total;
use crate::ranking::lemma_rm_insert_wf;
use crate::ranking::ranking_len;
use crate::ranking::rm_insert;
use crate::ranking::rm_total;
use crate::ranking::rm_wf;
use crate::types::CodecError;
use crate::types::GetRankingCursor;
use crate::types::GetRankingDirection;
use crate::types::HashWithTag;
use crate::types::HashWithTagV;
use crate::types::Link;
use crate::types::LinkV;
use crate::types::RankingIndex;
use vstd::prelude::*;

verus! {

/// Whether an entry at `ranking` falls in the range a cursor admits: all
/// entries without a cursor, those at or above the cursor's ranking when
/// ascending, those at or below it when descending.
pub open spec fn spec_in_range(
    ranking: i64,
    direction: GetRankingDirection,
    maybe_cursor: Option<GetRankingCursor>,
) -> bool {
    match maybe_cursor {
        None => true,
        Some(cursor) => match direction {
            GetRankingDirection::Ascendent => ranking >= cursor.from_ranking,
            GetRankingDirection::Descendent => ranking <= cursor.from_ranking,
        },
    }
}

/// Decides [`spec_in_range`].
pub fn is_inside_query_range(
    ranking: i64,
    direction: GetRankingDirection,
    maybe_cursor: Option<GetRankingCursor>,
) -> (inside: bool)
    ensures
        inside == spec_in_range(ranking, direction, maybe_cursor),
{
    match maybe_cursor {
        None => true,
        Some(cursor) => match direction {
            GetRankingDirection::Ascendent => ranking >= cursor.from_ranking,
            GetRankingDirection::Descendent => ranking <= cursor.from_ranking,
        },
    }
}

/// The scan that resolves a cursor to a starting position: the first `i`
/// with `keys[i] <= from_ranking < keys[i + 1]`, if any. Only adjacent
/// pairs are inspected, so a cursor at or beyond the last key finds
/// nothing.
pub open spec fn spec_cursor_scan(keys: Seq<i64>, from_ranking: i64, i: int) -> Option<int>
    decreases keys.len() - i,
{
    if i < 0 || i >= keys.len() - 1 {
        None
    } else if keys[i] <= from_ranking && from_ranking < keys[i + 1] {
        Some(i)
    } else {
        spec_cursor_scan(keys, from_ranking, i + 1)
    }
}

/// Where the walk starts: position 0 ascending and the last position
/// descending when no cursor is given; with a cursor, the position the scan
/// finds, or 0 when it finds none — including when the cursor lies at or
/// beyond the last shard's key, which resumes the walk from the low end.
pub open spec fn spec_initial_interval_index(
    keys: Seq<i64>,
    direction: GetRankingDirection,
    maybe_cursor: Option<GetRankingCursor>,
) -> int {
    match maybe_cursor {
        None => match direction {
            GetRankingDirection::Ascendent => 0,
            GetRankingDirection::Descendent => keys.len() - 1,
        },
        Some(cursor) => match spec_cursor_scan(keys, cursor.from_ranking, 0) {
            Some(i) => i,
            None => 0,
        },
    }
}

/// Computes [`spec_initial_interval_index`] over a nonempty key list.
pub fn initial_interval_index(
    keys: &Vec<i64>,
    direction: GetRankingDirection,
    maybe_cursor: Option<GetRankingCursor>,
) -> (start: usize)
    requires
        keys@.len() >= 1,
    ensures
        start == spec_initial_interval_index(keys@, direction, maybe_cursor),
        start < keys@.len(),
{
    let n = keys.len();
    match maybe_cursor {
        None => match direction {
            GetRankingDirection::Ascendent => 0,
            GetRankingDirection::Descendent => n - 1,
        },
        Some(cursor) => {
            let from_ranking = cursor.from_ranking;
            let mut i: usize = 0;
            while i + 1 < n
                invariant
                    0 <= i < n,
                    n == keys@.len(),
                    maybe_cursor == Some(cursor),
                    from_ranking == cursor.from_ranking,
                    spec_cursor_scan(keys@, from_ranking, 0) == spec_cursor_scan(
                        keys@,
                        from_ranking,
                        i as int,
                    ),
                decreases n - i,
            {
                if keys[i] <= from_ranking && from_ranking < keys[i + 1] {
                    proof {
                        assert(spec_cursor_scan(keys@, from_ranking, i as int) == Some(i as int));
                    }
                    return i;
                }
                i = i + 1;
            }
            0
        },
    }
}

/// What decoding a shard's edges gives: each edge's ranking paired with its
/// target and custom tag, in edge order, or the error of the first edge
/// whose tag bytes do not decode.
pub open spec fn spec_decode_links(links: Seq<LinkV>) -> Result<
    Seq<(i64, HashWithTagV)>,
    CodecError,
> {
    spec_decode_links_from(links, 0)
}

/// The scan behind [`spec_decode_links`], from position `i` on.
pub open spec fn spec_decode_links_from(links: Seq<LinkV>, i: int) -> Result<
    Seq<(i64, HashWithTagV)>,
    CodecError,
>
    decreases links.len() - i,
{
    if i < 0 || i >= links.len() {
        Ok(Seq::empty())
    } else {
        match spec_decode_tag(links[i].tag) {
            Err(e) => Err(e),
            Ok((ranking, custom_tag)) => match spec_decode_links_from(links, i + 1) {
                Err(e) => Err(e),
                Ok(rest) => Ok(
                    seq![(ranking, HashWithTagV { hash: links[i].target, tag: custom_tag })]
                        + rest,
                ),
            },
        }
    }
}

/// The values of a list of fetched edges.
pub open spec fn spec_links(ls: Seq<Link>) -> Seq<LinkV> {
    ls.map_values(|l: Link| l@)
}

/// Decodes a shard's edges into `(ranking, entry)` pairs, in edge order,
/// exactly as [`spec_decode_links`] describes; the first malformed tag
/// aborts the decoding with its error.
pub fn decode_links(links: &Vec<Link>) -> (r: Result<Vec<(i64, HashWithTag)>, CodecError>)
    ensures
        match r {
            Ok(entries) => spec_decode_links(spec_links(links@)) == Ok::<_, CodecError>(
                spec_entries(entries@),
            ),
            Err(e) => spec_decode_links(spec_links(links@)) == Err::<Seq<(i64, HashWithTagV)>,
                _,
            >(e),
        },
{
    let ghost lv = spec_links(links@);
    let n = links.len();
    let mut entries: Vec<(i64, HashWithTag)> = Vec::new();
    let mut i: usize = 0;
    proof {
        assert(spec_entries(entries@) =~= Seq::<(i64, HashWithTagV)>::empty());
    }
    while i < n
        invariant
            0 <= i <= n,
            n == links@.len(),
            lv == spec_links(links@),
            forall|e: CodecError|
                spec_decode_links_from(lv, 0) == Err::<Seq<(i64, HashWithTagV)>, _>(e)
                    <==> spec_decode_links_from(lv, i as int) == Err::<
                    Seq<(i64, HashWithTagV)>,
                    _,
                >(e),
            (forall|rest: Seq<(i64, HashWithTagV)>|
                spec_decode_links_from(lv, i as int) == Ok::<_, CodecError>(rest)
                    ==> spec_decode_links_from(lv, 0) == Ok::<_, CodecError>(
                    spec_entries(entries@) + rest,
                )),
        decreases n - i,
    {
        let ghost before = spec_entries(entries@);
        proof {
            assert(lv[i as int] == links@[i as int]@);
        }
        match tag_to_ranking(&links[i].tag) {
            Err(e) => {
                return Err(e);
            },
            Ok((ranking, custom_tag)) => {
                entries.push((ranking, HashWithTag { hash: links[i].target.clone(), tag: custom_tag }));
                proof {
                    let ev = (ranking, HashWithTagV {
                        hash: links@[i as int].target@,
                        tag: crate::types::spec_opt_bytes(custom_tag),
                    });
                    assert(spec_entries(entries@) =~= before.push(ev));
                    assert forall|rest: Seq<(i64, HashWithTagV)>|
                        spec_decode_links_from(lv, i + 1) == Ok::<_, CodecError>(rest)
                            implies spec_decode_links_from(lv, 0) == Ok::<_, CodecError>(
                        spec_entries(entries@) + rest,
                    ) by {
                        assert(spec_decode_links_from(lv, i as int) == Ok::<_, CodecError>(
                            seq![ev] + rest,
                        ));
                        assert(before + (seq![ev] + rest) =~= before.push(ev) + rest);
                    }
                }
            },
        }
        i = i + 1;
    }
    proof {
        assert(spec_decode_links_from(lv, n as int) == Ok::<_, CodecError>(
            Seq::<(i64, HashWithTagV)>::empty(),
        ));
        assert(spec_entries(entries@) + Seq::<(i64, HashWithTagV)>::empty() =~= spec_entries(
            entries@,
        ));
    }
    Ok(entries)
}

/// The values of a list of decoded entries.
pub open spec fn spec_entries(es: Seq<(i64, HashWithTag)>) -> Seq<(i64, HashWithTagV)> {
    es.map_values(|e: (i64, HashWithTag)| (e.0, e.1@))
}

/// The result after merging one shard's decoded entries into `acc`: each
/// entry the cursor admits is filed under its ranking, in entry order;
/// the rest are dropped.
pub open spec fn spec_merge_entries(
    acc: RankingModel,
    entries: Seq<(i64, HashWithTagV)>,
    direction: GetRankingDirection,
    maybe_cursor: Option<GetRankingCursor>,
) -> RankingModel
    decreases entries.len(),
{
    if entries.len() == 0 {
        acc
    } else {
        let e = entries[0];
        let acc2 = if spec_in_range(e.0, direction, maybe_cursor) {
            rm_insert(acc, e.0, e.1)
        } else {
            acc
        };
        spec_merge_entries(acc2, entries.drop_first(), direction, maybe_cursor)
    }
}

/// Merging never loses entries already collected, and keeps the result
/// well formed.
pub proof fn lemma_merge_entries_grows(
    acc: RankingModel,
    entries: Seq<(i64, HashWithTagV)>,
    direction: GetRankingDirection,
    maybe_cursor: Option<GetRankingCursor>,
)
    requires
        rm_wf(acc),
    ensures
        rm_wf(spec_merge_entries(acc, entries, direction, maybe_cursor)),
        rm_total(spec_merge_entries(acc, entries, direction, maybe_cursor)) >= rm_total(acc),
    decreases entries.len(),
{
    if entries.len() > 0 {
        let e = entries[0];
        if spec_in_range(e.0, direction, maybe_cursor) {
            lemma_rm_insert_wf(acc, e.0, e.1);
            lemma_rm_insert_total(acc, e.0, e.1);
            lemma_merge_entries_grows(
                rm_insert(acc, e.0, e.1),
                entries.drop_first(),
                direction,
                maybe_cursor,
            );
        } else {
            lemma_merge_entries_grows(acc, entries.drop_first(), direction, maybe_cursor);
        }
    }
}

/// The shards a walk can visit: each one's number and its fetched edges,
/// sorted ascending by shard number.
pub type ShardsModel = Seq<(i64, Seq<LinkV>)>;

/// The values of the namespace's children as the query receives them: each
/// child's leaf name and its fetched edges.
pub open spec fn spec_children(cs: Seq<(Vec<u8>, Vec<Link>)>) -> Seq<(Seq<u8>, Seq<LinkV>)> {
    cs.map_values(|c: (Vec<u8>, Vec<Link>)| (c.0@, spec_links(c.1@)))
}

/// The leaf names of the children, in child order.
pub open spec fn spec_child_names(children: Seq<(Seq<u8>, Seq<LinkV>)>) -> Seq<Seq<u8>> {
    children.map_values(|c: (Seq<u8>, Seq<LinkV>)| c.0)
}

/// The shard list the locator derives from the children: each parseable
/// leaf's number, sorted ascending, paired with that child's edges.
pub open spec fn spec_chunk_shards(children: Seq<(Seq<u8>, Seq<LinkV>)>) -> ShardsModel {
    spec_interval_keys(spec_child_names(children)).map_values(
        |p: (i64, int)|
            (
                p.0,
                if 0 <= p.1 < children.len() {
                    children[p.1].1
                } else {
                    Seq::<LinkV>::empty()
                },
            ),
    )
}

/// The shard numbers of a shard list, in order.
pub open spec fn spec_shard_keys(shards: ShardsModel) -> Seq<i64> {
    shards.map_values(|s: (i64, Seq<LinkV>)| s.0)
}

/// The walk itself, from position `idx` with `acc` already collected: stop
/// with `acc` once at least `count` entries are held or `idx` leaves the
/// shard list; otherwise decode the shard at `idx`, merge what the cursor
/// admits, and step one shard further in the direction of the walk. The
/// first undecodable edge aborts the whole query with its error.
pub open spec fn spec_chunk_from(
    shards: ShardsModel,
    direction: GetRankingDirection,
    count: int,
    maybe_cursor: Option<GetRankingCursor>,
    idx: int,
    acc: RankingModel,
) -> Result<RankingModel, CodecError>
    decreases
            if direction == GetRankingDirection::Ascendent {
                shards.len() - idx
            } else {
                idx + 1
            },
{
    if rm_total(acc) >= count || idx < 0 || idx >= shards.len() {
        Ok(acc)
    } else {
        match spec_decode_links(shards[idx].1) {
            Err(e) => Err(e),
            Ok(entries) => {
                let merged = spec_merge_entries(acc, entries, direction, maybe_cursor);
                let step = if direction == GetRankingDirection::Ascendent {
                    idx + 1
                } else {
                    idx - 1
                };
                spec_chunk_from(shards, direction, count, maybe_cursor, step, merged)
            },
        }
    }
}

/// What a whole range query returns on a given view of the namespace's
/// children: the walk from the position the cursor selects, starting with
/// nothing collected. An empty index gives an empty result.
pub open spec fn spec_get_ranking_chunk(
    children: Seq<(Seq<u8>, Seq<LinkV>)>,
    direction: GetRankingDirection,
    count: int,
    maybe_cursor: Option<GetRankingCursor>,
) -> Result<RankingModel, CodecError> {
    let shards = spec_chunk_shards(children);
    spec_chunk_from(
        shards,
        direction,
        count,
        maybe_cursor,
        spec_initial_interval_index(spec_shard_keys(shards), direction, maybe_cursor),
        Seq::empty(),
    )
}

/// A range query in progress, fed one shard's edges at a time, so that the
/// caller fetches only the shards the walk actually visits. The protocol:
/// while [`ChunkQuery::next_shard`] names a child, fetch that child's edges
/// and hand them to [`ChunkQuery::feed`]; then take the result with
/// [`ChunkQuery::finish`].
pub struct ChunkQuery {
    direction: GetRankingDirection,
    count: usize,
    maybe_cursor: Option<GetRankingCursor>,
    shards: Vec<(i64, usize)>,
    idx: usize,
    below: bool,
    acc: Ranking,
    total: usize,
}

impl ChunkQuery {
    /// The direction the walk was started with.
    pub closed spec fn spec_direction(&self) -> GetRankingDirection {
        self.direction
    }

    /// The entry count the walk was asked for.
    pub closed spec fn spec_count(&self) -> int {
        self.count as int
    }

    /// The cursor the walk was started with.
    pub closed spec fn spec_cursor(&self) -> Option<GetRankingCursor> {
        self.maybe_cursor
    }

    /// The shard list the walk moves over: each shard's number and the
    /// position of the child it lives at.
    pub closed spec fn spec_shard_pairs(&self) -> Seq<(i64, int)> {
        spec_pairs(self.shards@)
    }

    /// The walk's current position in the shard list; one step outside it
    /// once the walk has run off either end.
    pub closed spec fn spec_idx(&self) -> int {
        if self.below {
            -1
        } else {
            self.idx as int
        }
    }

    /// What the walk has collected so far.
    pub closed spec fn spec_acc(&self) -> RankingModel {
        self.acc@
    }

    /// The walk's inner consistency: the collected result is well formed
    /// and the cached entry count matches it.
    pub closed spec fn wf(&self) -> bool {
        &&& rm_wf(self.acc@)
        &&& self.total as int == if rm_total(self.acc@) <= usize::MAX as int {
            rm_total(self.acc@) as int
        } else {
            usize::MAX as int
        }
        &&& self.idx <= self.shards@.len()
        &&& (self.below ==> self.idx == 0)
    }

    /// Whether the walk still wants a shard: its position is on the list
    /// and fewer than `count` entries are collected.
    pub closed spec fn pending(&self) -> bool {
        &&& 0 <= self.spec_idx() < self.spec_shard_pairs().len()
        &&& rm_total(self.acc@) < self.count as int
    }

    /// The position of the child to fetch next, or `None` once the walk is
    /// done — enough entries are collected, or it ran off the shard list.
    pub fn next_shard(&self) -> (child: Option<usize>)
        requires
            self.wf(),
        ensures
            match child {
                Some(c) => self.pending() && c as int == self.spec_shard_pairs()[self.spec_idx()].1,
                None => !self.pending(),
            },
    {
        if !self.below && self.idx < self.shards.len() && self.total < self.count {
            Some(self.shards[self.idx].1)
        } else {
            None
        }
    }

    /// Merges one shard's fetched edges — the shard [`Self::next_shard`]
    /// just named — into the walk: the entries the cursor admits are filed
    /// under their rankings and the position steps one shard onward. The
    /// first undecodable edge stops the query with its error, leaving the
    /// walk untouched.
    pub fn feed(&mut self, links: &Vec<Link>) -> (r: Result<(), CodecError>)
        requires
            old(self).wf(),
            old(self).pending(),
        ensures
            final(self).spec_direction() == old(self).spec_direction(),
            final(self).spec_count() == old(self).spec_count(),
            final(self).spec_cursor() == old(self).spec_cursor(),
            final(self).spec_shard_pairs() == old(self).spec_shard_pairs(),
            match r {
                Ok(_) => {
                    &&& final(self).wf()
                    &&& match spec_decode_links(spec_links(links@)) {
                        Ok(entries) => final(self).spec_acc() == spec_merge_entries(
                            old(self).spec_acc(),
                            entries,
                            old(self).spec_direction(),
                            old(self).spec_cursor(),
                        ),
                        Err(_) => false,
                    }
                    &&& final(self).spec_idx() == if old(self).spec_direction()
                        == GetRankingDirection::Ascendent {
                        old(self).spec_idx() + 1
                    } else {
                        old(self).spec_idx() - 1
                    }
                },
                Err(e) => {
                    &&& spec_decode_links(spec_links(links@)) == Err::<
                        Seq<(i64, HashWithTagV)>,
                        _,
                    >(e)
                    &&& *final(self) == *old(self)
                },
            },
    {
        let entries = match decode_links(links) {
            Err(e) => {
                return Err(e);
            },
            Ok(entries) => entries,
        };
        merge_into(&mut self.acc, entries, self.direction, self.maybe_cursor);
        self.total = ranking_len(&self.acc);
        let n = self.shards.len();
        proof {
            assert(self.idx < n);
        }
        match self.direction {
            GetRankingDirection::Ascendent => {
                self.idx = self.idx + 1;
            },
            GetRankingDirection::Descendent => {
                if self.idx == 0 {
                    self.below = true;
                } else {
                    self.idx = self.idx - 1;
                }
            },
        }
        Ok(())
    }

    /// The collected result, once the walk is done.
    pub fn finish(self) -> (r: Ranking)
        requires
            self.wf(),
        ensures
            r@ == self.spec_acc(),
            r.wf(),
    {
        self.acc
    }
}

/// Files every entry the cursor admits into `acc`, in entry order.
fn merge_into(
    acc: &mut Ranking,
    entries: Vec<(i64, HashWithTag)>,
    direction: GetRankingDirection,
    maybe_cursor: Option<GetRankingCursor>,
)
    requires
        old(acc).wf(),
    ensures
        final(acc)@ == spec_merge_entries(
            old(acc)@,
            spec_entries(entries@),
            direction,
            maybe_cursor,
        ),
        final(acc).wf(),
{
    let ghost goal = spec_merge_entries(old(acc)@, spec_entries(entries@), direction, maybe_cursor);
    let mut rest = entries;
    while rest.len() > 0
        invariant
            acc.wf(),
            spec_merge_entries(acc@, spec_entries(rest@), direction, maybe_cursor) == goal,
        decreases rest@.len(),
    {
        let ghost before_entries = spec_entries(rest@);
        let e = rest.remove(0);
        proof {
            assert(spec_entries(rest@) =~= before_entries.drop_first());
            assert((e.0, e.1@) == before_entries[0]);
        }
        if is_inside_query_range(e.0, direction, maybe_cursor) {
            acc.push_entry(e.0, e.1);
        }
    }
    proof {
        assert(spec_entries(rest@) =~= Seq::<(i64, HashWithTagV)>::empty());
    }
}

impl RankingIndex {
    /// Decodes a shard's fetched edges into an ordered result, grouped by
    /// ranking, with no cursor filtering. The first undecodable edge fails
    /// the whole shard with its error.
    pub fn get_ranking_from_links(&self, links: &Vec<Link>) -> (r: Result<Ranking, CodecError>)
        ensures
            match spec_decode_links(spec_links(links@)) {
                Ok(entries) => r matches Ok(rk) && rk@ == spec_merge_entries(
                    Seq::empty(),
                    entries,
                    GetRankingDirection::Ascendent,
                    None,
                ) && rk.wf(),
                Err(e) => r matches Err(e2) && e2 == e,
            },
    {
        let entries = match decode_links(links) {
            Err(e) => {
                return Err(e);
            },
            Ok(entries) => entries,
        };
        let mut rk = Ranking::new();
        merge_into(&mut rk, entries, GetRankingDirection::Ascendent, None);
        Ok(rk)
    }

    /// Starts a range query over the namespace's current child leaf names:
    /// the shard list is derived and sorted, and the walk is placed where
    /// the cursor and direction say it begins.
    pub fn start_ranking_chunk(
        &self,
        leaves: &Vec<Vec<u8>>,
        direction: GetRankingDirection,
        count: usize,
        maybe_cursor: Option<GetRankingCursor>,
    ) -> (q: ChunkQuery)
        ensures
            q.wf(),
            q.spec_direction() == direction,
            q.spec_count() == count as int,
            q.spec_cursor() == maybe_cursor,
            q.spec_shard_pairs() == spec_interval_keys(spec_leaves(leaves@)),
            q.spec_acc() == Seq::<(i64, Seq<HashWithTagV>)>::empty(),
            q.spec_shard_pairs().len() > 0 ==> q.spec_idx() == spec_initial_interval_index(
                pair_keys(q.spec_shard_pairs()),
                direction,
                maybe_cursor,
            ),
            q.spec_shard_pairs().len() == 0 ==> q.spec_idx() == 0,
    {
        let pairs = self.get_interval_paths(leaves);
        let n = pairs.len();
        let mut keys: Vec<i64> = Vec::new();
        let mut i: usize = 0;
        proof {
            assert(keys@ =~= pair_keys(spec_pairs(pairs@)).take(0));
        }
        while i < n
            invariant
                0 <= i <= n,
                n == pairs@.len(),
                keys@ == pair_keys(spec_pairs(pairs@)).take(i as int),
            decreases n - i,
        {
            keys.push(pairs[i].0);
            proof {
                assert(keys@ =~= pair_keys(spec_pairs(pairs@)).take(i + 1));
            }
            i = i + 1;
        }
        proof {
            assert(keys@ =~= pair_keys(spec_pairs(pairs@)));
        }
        let idx: usize = if n == 0 {
            0
        } else {
            initial_interval_index(&keys, direction, maybe_cursor)
        };
        let q = ChunkQuery {
            direction,
            count,
            maybe_cursor,
            shards: pairs,
            idx,
            below: false,
            acc: Ranking::new(),
            total: 0,
        };
        proof {
            assert(rm_total(q.spec_acc()) == 0);
        }
        q
    }

    /// Answers a range query over a snapshot of the namespace: each child's
    /// leaf name with its fetched edges. The walk visits shards in the
    /// requested direction from the cursor's starting shard, merging whole
    /// shards until at least `count` entries are collected or the shards
    /// run out, and returns the merged result with its keys in ascending
    /// order — or the error of the first undecodable edge met on the way.
    pub fn get_ranking_chunk(
        &self,
        children: &Vec<(Vec<u8>, Vec<Link>)>,
        direction: GetRankingDirection,
        count: usize,
        maybe_cursor: Option<GetRankingCursor>,
    ) -> (r: Result<Ranking, CodecError>)
        ensures
            match r {
                Ok(rk) => spec_get_ranking_chunk(
                    spec_children(children@),
                    direction,
                    count as int,
                    maybe_cursor,
                ) == Ok::<_, CodecError>(rk@) && rk.wf(),
                Err(e) => spec_get_ranking_chunk(
                    spec_children(children@),
                    direction,
                    count as int,
                    maybe_cursor,
                ) == Err::<RankingModel, _>(e),
            },
    {
        let ghost cv = spec_children(children@);
        let ghost shards = spec_chunk_shards(cv);
        let n = children.len();
        let mut leaves: Vec<Vec<u8>> = Vec::new();
        let mut i: usize = 0;
        while i < n
            invariant
                0 <= i <= n,
                n == children@.len(),
                leaves@.len() == i,
                forall|k: int| 0 <= k < i ==> #[trigger] leaves@[k]@ == children@[k].0@,
            decreases n - i,
        {
            let leaf = children[i].0.clone();
            leaves.push(leaf);
            i = i + 1;
        }
        proof {
            assert forall|k: int|
                0 <= k < n implies spec_leaves(leaves@)[k] == spec_child_names(cv)[k] by {
                assert(leaves@[k]@ == children@[k].0@);
                assert(cv[k] == (children@[k].0@, spec_links(children@[k].1@)));
            }
            assert(spec_leaves(leaves@) =~= spec_child_names(cv));
        }
        let mut q = self.start_ranking_chunk(&leaves, direction, count, maybe_cursor);
        proof {
            lemma_interval_keys_wf(spec_leaves(leaves@));
            lemma_chunk_setup(cv, q.spec_shard_pairs(), direction, count as int, maybe_cursor, q.spec_idx());
        }
        let mut next = q.next_shard();
        while next.is_some()
            invariant
                q.wf(),
                cv == spec_children(children@),
                shards == spec_chunk_shards(cv),
                q.spec_direction() == direction,
                q.spec_count() == count as int,
                q.spec_cursor() == maybe_cursor,
                q.spec_shard_pairs() == spec_interval_keys(spec_child_names(cv)),
                interval_pairs_wf(q.spec_shard_pairs(), spec_child_names(cv), cv.len() as int),
                children@.len() == cv.len(),
                spec_chunk_from(
                    shards,
                    direction,
                    count as int,
                    maybe_cursor,
                    q.spec_idx(),
                    q.spec_acc(),
                ) == spec_get_ranking_chunk(cv, direction, count as int, maybe_cursor),
                match next {
                    Some(c) => q.pending() && c as int == q.spec_shard_pairs()[q.spec_idx()].1,
                    None => !q.pending(),
                },
            decreases
                    if direction == GetRankingDirection::Ascendent {
                        shards.len() - q.spec_idx()
                    } else {
                        q.spec_idx() + 1
                    },
        {
            let child = match next {
                Some(c) => c,
                None => {
                    proof {
                        assert(false);
                    }
                    0
                },
            };
            let ghost pos = q.spec_idx();
            let ghost acc0 = q.spec_acc();
            proof {
                assert(q.spec_shard_pairs()[pos].1 == child as int);
                assert(0 <= child < cv.len());
                assert(shards[pos] == (
                    q.spec_shard_pairs()[pos].0,
                    cv[child as int].1,
                ));
                assert(cv[child as int].1 == spec_links(children@[child as int].1@));
            }
            match q.feed(&children[child].1) {
                Err(e) => {
                    proof {
                        assert(spec_chunk_from(
                            shards,
                            direction,
                            count as int,
                            maybe_cursor,
                            pos,
                            acc0,
                        ) == Err::<RankingModel, _>(e));
                    }
                    return Err(e);
                },
                Ok(_) => {},
            }
            next = q.next_shard();
        }
        proof {
            assert(spec_chunk_from(
                shards,
                direction,
                count as int,
                maybe_cursor,
                q.spec_idx(),
                q.spec_acc(),
            ) == Ok::<_, CodecError>(q.spec_acc()));
        }
        Ok(q.finish())
    }
}

/// The shard numbers of a pair list, in order.
pub open spec fn pair_keys(pairs: Seq<(i64, int)>) -> Seq<i64> {
    pairs.map_values(|p: (i64, int)| p.0)
}

/// Ties the walk's starting state to the whole-query model: the shard list
/// derived from the children has the pair list's keys, and the walk's
/// first position makes the remaining walk compute the whole query.
proof fn lemma_chunk_setup(
    cv: Seq<(Seq<u8>, Seq<LinkV>)>,
    pairs: Seq<(i64, int)>,
    direction: GetRankingDirection,
    count: int,
    maybe_cursor: Option<GetRankingCursor>,
    start: int,
)
    requires
        pairs == spec_interval_keys(spec_child_names(cv)),
        pairs.len() > 0 ==> start == spec_initial_interval_index(
            pair_keys(pairs),
            direction,
            maybe_cursor,
        ),
        pairs.len() == 0 ==> start == 0,
    ensures
        spec_chunk_from(
            spec_chunk_shards(cv),
            direction,
            count,
            maybe_cursor,
            start,
            Seq::empty(),
        ) == spec_get_ranking_chunk(cv, direction, count, maybe_cursor),
{
    let shards = spec_chunk_shards(cv);
    assert(spec_shard_keys(shards) =~= pair_keys(pairs));
    if pairs.len() == 0 {
        let official = spec_initial_interval_index(
            spec_shard_keys(shards),
            direction,
            maybe_cursor,
        );
        assert(spec_chunk_from(shards, direction, count, maybe_cursor, start, Seq::empty())
            == Ok::<_, CodecError>(Seq::<(i64, Seq<HashWithTagV>)>::empty()));
        assert(spec_chunk_from(shards, direction, count, maybe_cursor, official, Seq::empty())
            == Ok::<_, CodecError>(Seq::<(i64, Seq<HashWithTagV>)>::empty()));
    }
}

} // verus!

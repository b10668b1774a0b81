use hc_lib_ranking_index::GetRankingCursor;
use hc_lib_ranking_index::GetRankingDirection;
use hc_lib_ranking_index::HashWithTag;
use hc_lib_ranking_index::Link;
use hc_lib_ranking_index::Ranking;
use hc_lib_ranking_index::RankingIndex;
use hc_lib_ranking_index::i64_to_decimal;
use hc_lib_ranking_index::initial_interval_index;
use hc_lib_ranking_index::is_inside_query_range;
use hc_lib_ranking_index::ranking_len;
use hc_lib_ranking_index::ranking_to_tag;

/// An in-memory stand-in for the namespace: each child's leaf name and its
/// current edges, driven through the same computations the index hands the
/// real substrate.
struct Store {
    children: Vec<(Vec<u8>, Vec<Link>)>,
    next_edge: u64,
}

impl Store {
    fn new() -> Store {
        Store { children: Vec::new(), next_edge: 0 }
    }

    fn insert(&mut self, index: &RankingIndex, target: &[u8], ranking: i64, tag: Option<Vec<u8>>) {
        let leaf = i64_to_decimal(index.ranking_interval(ranking));
        let link = Link {
            create_link_hash: self.next_edge.to_le_bytes().to_vec(),
            target: target.to_vec(),
            tag: ranking_to_tag(ranking, tag),
        };
        self.next_edge += 1;
        if let Some(child) = self.children.iter_mut().find(|c| c.0 == leaf) {
            child.1.push(link);
        } else {
            self.children.push((leaf, vec![link]));
        }
    }

    fn delete(&mut self, index: &RankingIndex, target: &[u8], ranking: i64) {
        let leaf = i64_to_decimal(index.ranking_interval(ranking));
        if let Some(child) = self.children.iter_mut().find(|c| c.0 == leaf) {
            let ids = index.links_to_delete(&child.1, &target.to_vec());
            child.1.retain(|l| !ids.contains(&l.create_link_hash));
        }
    }
}

fn keys_of(r: &Ranking) -> Vec<i64> {
    let mut ks = Vec::new();
    for i in 0..r.len() {
        ks.push(r.key_at(i));
    }
    ks
}

fn targets_at(r: &Ranking, ranking: i64) -> Vec<Vec<u8>> {
    match r.get(ranking) {
        None => Vec::new(),
        Some(g) => g.iter().map(|h| h.hash.clone()).collect(),
    }
}

fn store_with_rankings_zero_to_seven(index: &RankingIndex) -> Store {
    let mut store = Store::new();
    for r in 0..8i64 {
        store.insert(index, format!("target{}", r).as_bytes(), r, None);
    }
    store
}

#[test]
fn round_trip_single_entry() {
    let index = RankingIndex { index_interval: 100 };
    for direction in [GetRankingDirection::Ascendent, GetRankingDirection::Descendent] {
        for count in [1usize, 2, 10] {
            let mut store = Store::new();
            store.insert(&index, b"the-target", 42, Some(vec![9u8, 9]));
            let got = index
                .get_ranking_chunk(&store.children, direction, count, None)
                .unwrap();
            assert_eq!(keys_of(&got), vec![42]);
            assert_eq!(
                got.get(42).unwrap().as_slice(),
                &[HashWithTag { hash: b"the-target".to_vec(), tag: Some(vec![9u8, 9]) }]
            );
            assert_eq!(ranking_len(&got), 1);
        }
    }
}

#[test]
fn direction_symmetry() {
    let index = RankingIndex { index_interval: 1 };
    let store = store_with_rankings_zero_to_seven(&index);
    let low = index
        .get_ranking_chunk(&store.children, GetRankingDirection::Ascendent, 2, None)
        .unwrap();
    assert_eq!(keys_of(&low), vec![0, 1]);
    assert_eq!(ranking_len(&low), 2);
    let high = index
        .get_ranking_chunk(&store.children, GetRankingDirection::Descendent, 2, None)
        .unwrap();
    // Highest first in traversal, but the returned keys are ascending.
    assert_eq!(keys_of(&high), vec![6, 7]);
    assert_eq!(ranking_len(&high), 2);
}

#[test]
fn cursor_resumption() {
    let index = RankingIndex { index_interval: 3 };
    let store = store_with_rankings_zero_to_seven(&index);
    let got = index
        .get_ranking_chunk(
            &store.children,
            GetRankingDirection::Ascendent,
            12,
            Some(GetRankingCursor { from_ranking: 2 }),
        )
        .unwrap();
    assert_eq!(keys_of(&got), vec![2, 3, 4, 5, 6, 7]);
    assert_eq!(ranking_len(&got), 6);
}

#[test]
fn post_delete_consistency() {
    let index = RankingIndex { index_interval: 3 };
    let mut store = store_with_rankings_zero_to_seven(&index);
    store.delete(&index, b"target6", 6);
    let got = index
        .get_ranking_chunk(&store.children, GetRankingDirection::Descendent, 2, None)
        .unwrap();
    let keys = keys_of(&got);
    assert!(!keys.contains(&6));
    assert!(keys.contains(&7));
    assert!(keys.contains(&5));
    // The top shard now holds only ranking 7, so the walk also merged the
    // whole next shard down.
    assert_eq!(keys, vec![3, 4, 5, 7]);
}

#[test]
fn idempotent_delete_of_absent_entry() {
    let index = RankingIndex { index_interval: 100 };
    let mut store = Store::new();
    store.insert(&index, b"kept", 5, None);
    let before = store.children.clone();
    // Never inserted: nothing is selected, nothing changes.
    let ids = index.links_to_delete(&store.children[0].1, &b"never-inserted".to_vec());
    assert_eq!(ids, Vec::<Vec<u8>>::new());
    store.delete(&index, b"never-inserted", 5);
    assert_eq!(store.children, before);
    let got = index
        .get_ranking_chunk(&store.children, GetRankingDirection::Ascendent, 10, None)
        .unwrap();
    assert_eq!(targets_at(&got, 5), vec![b"kept".to_vec()]);
}

#[test]
fn delete_with_wrong_ranking_misses_the_entry() {
    let index = RankingIndex { index_interval: 100 };
    let mut store = Store::new();
    store.insert(&index, b"the-target", 5, None);
    // Ranking 150 names another shard, so the entry at 5 is not found.
    store.delete(&index, b"the-target", 150);
    let got = index
        .get_ranking_chunk(&store.children, GetRankingDirection::Ascendent, 10, None)
        .unwrap();
    assert_eq!(keys_of(&got), vec![5]);
}

#[test]
fn duplicate_inserts_are_deleted_together() {
    let index = RankingIndex { index_interval: 100 };
    let mut store = Store::new();
    store.insert(&index, b"twice", 5, None);
    store.insert(&index, b"twice", 5, None);
    store.insert(&index, b"other", 5, None);
    let got = index
        .get_ranking_chunk(&store.children, GetRankingDirection::Ascendent, 10, None)
        .unwrap();
    assert_eq!(targets_at(&got, 5).len(), 3);
    store.delete(&index, b"twice", 5);
    let got = index
        .get_ranking_chunk(&store.children, GetRankingDirection::Ascendent, 10, None)
        .unwrap();
    assert_eq!(targets_at(&got, 5), vec![b"other".to_vec()]);
}

#[test]
fn at_least_count_not_exact_count() {
    let index = RankingIndex { index_interval: 100 };
    let mut store = Store::new();
    for r in 1..=5i64 {
        store.insert(&index, format!("t{}", r).as_bytes(), r, None);
    }
    // One shard holds five entries; asking for two merges the whole shard.
    let got = index
        .get_ranking_chunk(&store.children, GetRankingDirection::Ascendent, 2, None)
        .unwrap();
    assert!(ranking_len(&got) >= 2);
    assert_eq!(ranking_len(&got), 5);
    // Fewer than asked only when the index is exhausted.
    let got = index
        .get_ranking_chunk(&store.children, GetRankingDirection::Ascendent, 7, None)
        .unwrap();
    assert_eq!(ranking_len(&got), 5);
}

#[test]
fn empty_index_returns_empty_mapping() {
    let index = RankingIndex { index_interval: 100 };
    let store = Store::new();
    for direction in [GetRankingDirection::Ascendent, GetRankingDirection::Descendent] {
        for cursor in [None, Some(GetRankingCursor { from_ranking: 3 })] {
            let got = index
                .get_ranking_chunk(&store.children, direction, 5, cursor)
                .unwrap();
            assert_eq!(got.len(), 0);
            assert_eq!(ranking_len(&got), 0);
        }
    }
}

#[test]
fn cursor_beyond_last_shard_falls_back_to_the_low_end() {
    let index = RankingIndex { index_interval: 3 };
    let store = store_with_rankings_zero_to_seven(&index);
    // Shard keys are 0, 1, 2; no adjacent pair brackets 7, so the walk
    // falls back to the lowest shard.
    let got = index
        .get_ranking_chunk(
            &store.children,
            GetRankingDirection::Descendent,
            1,
            Some(GetRankingCursor { from_ranking: 7 }),
        )
        .unwrap();
    assert_eq!(keys_of(&got), vec![0, 1, 2]);
}

#[test]
fn codec_error_surfaces_only_from_visited_shards() {
    let index = RankingIndex { index_interval: 1 };
    let mut store = Store::new();
    store.insert(&index, b"good", 7, None);
    store.insert(&index, b"bad", 0, None);
    // Corrupt the tag of the entry at ranking 0.
    let zero_leaf = i64_to_decimal(0);
    let child = store.children.iter_mut().find(|c| c.0 == zero_leaf).unwrap();
    child.1[0].tag = vec![9u8];
    // A descending walk for one entry stops before the corrupt shard.
    let got = index
        .get_ranking_chunk(&store.children, GetRankingDirection::Descendent, 1, None)
        .unwrap();
    assert_eq!(keys_of(&got), vec![7]);
    // An ascending walk meets it first and fails with the codec error.
    assert!(index
        .get_ranking_chunk(&store.children, GetRankingDirection::Ascendent, 1, None)
        .is_err());
}

#[test]
fn ranking_from_links_groups_by_ranking() {
    let index = RankingIndex { index_interval: 100 };
    let links = vec![
        Link {
            create_link_hash: vec![0],
            target: b"a".to_vec(),
            tag: ranking_to_tag(2, None),
        },
        Link {
            create_link_hash: vec![1],
            target: b"b".to_vec(),
            tag: ranking_to_tag(1, Some(vec![5u8])),
        },
        Link {
            create_link_hash: vec![2],
            target: b"c".to_vec(),
            tag: ranking_to_tag(2, None),
        },
    ];
    let got = index.get_ranking_from_links(&links).unwrap();
    assert_eq!(keys_of(&got), vec![1, 2]);
    assert_eq!(targets_at(&got, 2), vec![b"a".to_vec(), b"c".to_vec()]);
    assert_eq!(
        got.get(1).unwrap().as_slice(),
        &[HashWithTag { hash: b"b".to_vec(), tag: Some(vec![5u8]) }]
    );
}

#[test]
fn chunk_query_protocol_fetches_only_needed_shards() {
    let index = RankingIndex { index_interval: 1 };
    let store = store_with_rankings_zero_to_seven(&index);
    let leaves: Vec<Vec<u8>> = store.children.iter().map(|c| c.0.clone()).collect();
    let mut q = index.start_ranking_chunk(&leaves, GetRankingDirection::Descendent, 2, None);
    let mut fetched = 0;
    while let Some(child) = q.next_shard() {
        fetched += 1;
        q.feed(&store.children[child].1).unwrap();
    }
    let got = q.finish();
    assert_eq!(fetched, 2);
    assert_eq!(keys_of(&got), vec![6, 7]);
}

#[test]
fn query_range_membership() {
    let asc = GetRankingDirection::Ascendent;
    let desc = GetRankingDirection::Descendent;
    assert!(is_inside_query_range(5, asc, None));
    assert!(is_inside_query_range(5, desc, None));
    let cursor = Some(GetRankingCursor { from_ranking: 3 });
    assert!(is_inside_query_range(3, asc, cursor));
    assert!(is_inside_query_range(4, asc, cursor));
    assert!(!is_inside_query_range(2, asc, cursor));
    assert!(is_inside_query_range(3, desc, cursor));
    assert!(is_inside_query_range(2, desc, cursor));
    assert!(!is_inside_query_range(4, desc, cursor));
}

#[test]
fn initial_interval_index_cases() {
    let keys = vec![0i64, 1, 2];
    let asc = GetRankingDirection::Ascendent;
    let desc = GetRankingDirection::Descendent;
    assert_eq!(initial_interval_index(&keys, asc, None), 0);
    assert_eq!(initial_interval_index(&keys, desc, None), 2);
    let at = |r: i64| Some(GetRankingCursor { from_ranking: r });
    assert_eq!(initial_interval_index(&keys, asc, at(0)), 0);
    assert_eq!(initial_interval_index(&keys, asc, at(1)), 1);
    // Only adjacent pairs are checked: a cursor at or past the last key
    // finds no pair and falls back to 0.
    assert_eq!(initial_interval_index(&keys, asc, at(2)), 0);
    assert_eq!(initial_interval_index(&keys, desc, at(7)), 0);
    assert_eq!(initial_interval_index(&keys, desc, at(-5)), 0);
}

#[test]
fn negative_rankings_share_the_zero_straddling_shard() {
    let index = RankingIndex { index_interval: 3 };
    let mut store = Store::new();
    for r in [-4i64, -3, -2, -1, 0, 1, 2, 3] {
        store.insert(&index, format!("t{}", r).as_bytes(), r, None);
    }
    // Truncating division sends -2..=2 to shard 0, -4 and -3 to shard -1,
    // and 3 to shard 1.
    let low = index
        .get_ranking_chunk(&store.children, GetRankingDirection::Ascendent, 1, None)
        .unwrap();
    assert_eq!(keys_of(&low), vec![-4, -3]);
    let mid = index
        .get_ranking_chunk(&store.children, GetRankingDirection::Ascendent, 3, None)
        .unwrap();
    assert_eq!(keys_of(&mid), vec![-4, -3, -2, -1, 0, 1, 2]);
    let high = index
        .get_ranking_chunk(&store.children, GetRankingDirection::Descendent, 1, None)
        .unwrap();
    assert_eq!(keys_of(&high), vec![3]);
}

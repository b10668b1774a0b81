use hc_lib_ranking_index::RankingIndex;
use hc_lib_ranking_index::i64_to_decimal;
use hc_lib_ranking_index::parse_i64_decimal;

#[test]
fn shard_for_is_stable_and_truncates_toward_zero() {
    let index = RankingIndex { index_interval: 100 };
    assert_eq!(index.ranking_interval(250), 2);
    assert_eq!(index.ranking_interval(99), 0);
    assert_eq!(index.ranking_interval(100), 1);
    assert_eq!(index.ranking_interval(0), 0);
    assert_eq!(index.ranking_interval(-1), 0);
    assert_eq!(index.ranking_interval(-99), 0);
    assert_eq!(index.ranking_interval(-100), -1);
    assert_eq!(index.ranking_interval(-250), -2);
    // The same pair always gives the same shard.
    assert_eq!(index.ranking_interval(250), index.ranking_interval(250));
    let narrow = RankingIndex { index_interval: 3 };
    assert_eq!(narrow.ranking_interval(7), 2);
    assert_eq!(narrow.ranking_interval(-7), -2);
}

#[test]
fn default_index_interval_is_one_hundred() {
    let index = RankingIndex::new_with_default_mod();
    assert_eq!(index.index_interval, 100);
}

#[test]
fn ranking_path_names_the_shard_in_decimal() {
    let index = RankingIndex { index_interval: 100 };
    assert_eq!(index.root_path_name(), b"ranking_index".to_vec());
    assert_eq!(index.get_ranking_path(250), b"ranking_index.2".to_vec());
    assert_eq!(index.get_ranking_path(-250), b"ranking_index.-2".to_vec());
    assert_eq!(index.get_ranking_path(7), b"ranking_index.0".to_vec());
}

#[test]
fn decimal_rendering() {
    assert_eq!(i64_to_decimal(0), b"0".to_vec());
    assert_eq!(i64_to_decimal(7), b"7".to_vec());
    assert_eq!(i64_to_decimal(-12), b"-12".to_vec());
    assert_eq!(i64_to_decimal(i64::MAX), b"9223372036854775807".to_vec());
    assert_eq!(i64_to_decimal(i64::MIN), b"-9223372036854775808".to_vec());
}

#[test]
fn decimal_parsing() {
    assert_eq!(parse_i64_decimal(&b"7".to_vec()), Some(7));
    assert_eq!(parse_i64_decimal(&b"+7".to_vec()), Some(7));
    assert_eq!(parse_i64_decimal(&b"-12".to_vec()), Some(-12));
    assert_eq!(parse_i64_decimal(&b"007".to_vec()), Some(7));
    assert_eq!(
        parse_i64_decimal(&b"9223372036854775807".to_vec()),
        Some(i64::MAX)
    );
    assert_eq!(
        parse_i64_decimal(&b"-9223372036854775808".to_vec()),
        Some(i64::MIN)
    );
    assert_eq!(parse_i64_decimal(&b"9223372036854775808".to_vec()), None);
    assert_eq!(parse_i64_decimal(&b"-9223372036854775809".to_vec()), None);
    assert_eq!(parse_i64_decimal(&b"".to_vec()), None);
    assert_eq!(parse_i64_decimal(&b"-".to_vec()), None);
    assert_eq!(parse_i64_decimal(&b"+".to_vec()), None);
    assert_eq!(parse_i64_decimal(&b"12a".to_vec()), None);
    assert_eq!(parse_i64_decimal(&b" 12".to_vec()), None);
    assert_eq!(parse_i64_decimal(&b"1.2".to_vec()), None);
}

#[test]
fn parse_inverts_rendering() {
    for r in [i64::MIN, -100, -1, 0, 1, 99, i64::MAX] {
        assert_eq!(parse_i64_decimal(&i64_to_decimal(r)), Some(r));
    }
}

#[test]
fn component_to_ranking_reads_leaf_names() {
    let index = RankingIndex { index_interval: 100 };
    assert_eq!(index.component_to_ranking(&b"42".to_vec()), Some(42));
    assert_eq!(index.component_to_ranking(&b"junk".to_vec()), None);
}

#[test]
fn interval_paths_sort_skip_and_shadow() {
    let index = RankingIndex { index_interval: 100 };
    let leaves: Vec<Vec<u8>> = vec![
        b"3".to_vec(),
        b"junk".to_vec(),
        b"1".to_vec(),
        b"003".to_vec(),
        b"-2".to_vec(),
    ];
    // Sorted ascending by shard number; the unparseable leaf is skipped;
    // the later leaf naming shard 3 shadows the earlier one.
    assert_eq!(
        index.get_interval_paths(&leaves),
        vec![(-2i64, 4usize), (1, 2), (3, 3)]
    );
    assert_eq!(index.get_interval_paths(&Vec::new()), Vec::new());
}

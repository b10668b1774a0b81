use hc_lib_ranking_index::CodecError;
use hc_lib_ranking_index::ranking_to_tag;
use hc_lib_ranking_index::tag_to_ranking;

#[test]
fn tag_round_trip_without_custom_tag() {
    let tag = ranking_to_tag(5, None);
    assert_eq!(tag, vec![0u8, 5, 0, 0, 0, 0, 0, 0, 0]);
    assert_eq!(tag_to_ranking(&tag), Ok((5, None)));
}

#[test]
fn tag_round_trip_with_custom_tag() {
    let custom = vec![1u8, 2, 3];
    let tag = ranking_to_tag(-3, Some(custom.clone()));
    assert_eq!(
        tag,
        vec![1u8, 0xfd, 0xff, 0xff, 0xff, 0xff, 0xff, 0xff, 0xff, 1, 2, 3]
    );
    assert_eq!(tag_to_ranking(&tag), Ok((-3, Some(custom))));
}

#[test]
fn tag_round_trip_extreme_rankings() {
    for r in [i64::MIN, i64::MIN + 1, -1, 0, 1, i64::MAX - 1, i64::MAX] {
        assert_eq!(tag_to_ranking(&ranking_to_tag(r, None)), Ok((r, None)));
        assert_eq!(
            tag_to_ranking(&ranking_to_tag(r, Some(vec![7u8]))),
            Ok((r, Some(vec![7u8])))
        );
    }
}

#[test]
fn tag_round_trip_empty_custom_tag() {
    let tag = ranking_to_tag(0, Some(Vec::new()));
    assert_eq!(tag.len(), 9);
    assert_eq!(tag[0], 1);
    assert_eq!(tag_to_ranking(&tag), Ok((0, Some(Vec::new()))));
}

#[test]
fn decode_rejects_short_payload() {
    assert_eq!(tag_to_ranking(&Vec::new()), Err(CodecError::Truncated));
    assert_eq!(
        tag_to_ranking(&vec![0u8, 1, 2, 3, 4, 5, 6, 7]),
        Err(CodecError::Truncated)
    );
}

#[test]
fn decode_rejects_unknown_marker() {
    let mut tag = ranking_to_tag(9, None);
    tag[0] = 2;
    assert_eq!(tag_to_ranking(&tag), Err(CodecError::UnknownMarker));
}

#[test]
fn decode_rejects_trailing_bytes() {
    let mut tag = ranking_to_tag(9, None);
    tag.push(0);
    assert_eq!(tag_to_ranking(&tag), Err(CodecError::TrailingBytes));
}

use scrobble_fix::{parse, ParseError, Rating};

#[test]
fn parse_valid_line() {
    let rec = parse("Artist\tAlbum\tTrack\t3\t215\tL\t978307200\tabc123").unwrap();
    assert_eq!(rec.artist, "Artist");
    assert_eq!(rec.album, "Album");
    assert_eq!(rec.track, "Track");
    assert_eq!(rec.track_position, Some(3));
    assert_eq!(rec.duration_seconds, 215);
    assert!(matches!(rec.rating, Rating::Listened));
    assert_eq!(rec.timestamp, 978307200);
    assert_eq!(rec.track_id.as_deref(), Some("abc123"));
}

#[test]
fn parse_skipped_rating() {
    let rec = parse("a\tb\tc\t\t1\tS\t0\t").unwrap();
    assert!(matches!(rec.rating, Rating::Skipped));
}

#[test]
fn parse_empty_track_position() {
    let rec = parse("Artist\tAlbum\tTrack\t\t215\tL\t978307200\tabc123").unwrap();
    assert_eq!(rec.track_position, None);
}

#[test]
fn parse_no_eighth_field() {
    let rec = parse("Artist\tAlbum\tTrack\t3\t215\tL\t978307200").unwrap();
    assert_eq!(rec.track_id, None);
}

#[test]
fn parse_empty_eighth_field() {
    let rec = parse("Artist\tAlbum\tTrack\t3\t215\tL\t978307200\t").unwrap();
    assert_eq!(rec.track_id, None);
}

#[test]
fn parse_rejects_rating_x() {
    let err = parse("Artist\tAlbum\tTrack\t3\t215\tX\t978307200\tabc123").unwrap_err();
    match err {
        ParseError::InvalidRating(raw) => assert_eq!(raw, "X"),
        other => panic!("expected InvalidRating, got {:?}", other),
    }
}

#[test]
fn parse_rejects_empty_rating() {
    let err = parse("Artist\tAlbum\tTrack\t3\t215\t\t978307200\tabc123").unwrap_err();
    assert!(matches!(err, ParseError::InvalidRating(_)));
}

#[test]
fn parse_truncated_line() {
    let err = parse("Artist\tAlbum\tTrack\t3\t215").unwrap_err();
    match err {
        ParseError::TruncatedRecord(rest) => assert_eq!(rest, "215"),
        other => panic!("expected TruncatedRecord, got {:?}", other),
    }
}

#[test]
fn parse_truncated_empty_line() {
    let err = parse("").unwrap_err();
    match err {
        ParseError::TruncatedRecord(rest) => assert_eq!(rest, ""),
        other => panic!("expected TruncatedRecord, got {:?}", other),
    }
}

#[test]
fn parse_invalid_track_position() {
    let err = parse("a\tb\tc\tx\t215\tL\t0\t").unwrap_err();
    match err {
        ParseError::InvalidTrackPosition(raw) => assert_eq!(raw, "x"),
        other => panic!("expected InvalidTrackPosition, got {:?}", other),
    }
}

#[test]
fn parse_track_position_with_plus_sign() {
    let rec = parse("a\tb\tc\t+3\t215\tL\t0\t").unwrap();
    assert_eq!(rec.track_position, Some(3));
}

#[test]
fn parse_track_position_leading_zeros() {
    let rec = parse("a\tb\tc\t007\t215\tL\t0\t").unwrap();
    assert_eq!(rec.track_position, Some(7));
}

#[test]
fn parse_empty_duration_is_invalid() {
    let err = parse("a\tb\tc\t3\t\tL\t0\t").unwrap_err();
    match err {
        ParseError::InvalidDuration(raw) => assert_eq!(raw, ""),
        other => panic!("expected InvalidDuration, got {:?}", other),
    }
}

#[test]
fn parse_duration_at_u32_max() {
    let rec = parse("a\tb\tc\t3\t4294967295\tL\t0\t").unwrap();
    assert_eq!(rec.duration_seconds, u32::MAX);
}

#[test]
fn parse_duration_over_u32_max_is_invalid() {
    let err = parse("a\tb\tc\t3\t4294967296\tL\t0\t").unwrap_err();
    assert!(matches!(err, ParseError::InvalidDuration(_)));
}

#[test]
fn parse_negative_timestamp() {
    let rec = parse("a\tb\tc\t3\t215\tL\t-5\t").unwrap();
    assert_eq!(rec.timestamp, -5);
}

#[test]
fn parse_timestamp_extremes() {
    let low = parse("a\tb\tc\t3\t215\tL\t-9223372036854775808\t").unwrap();
    assert_eq!(low.timestamp, i64::MIN);
    let high = parse("a\tb\tc\t3\t215\tL\t9223372036854775807\t").unwrap();
    assert_eq!(high.timestamp, i64::MAX);
}

#[test]
fn parse_timestamp_out_of_range_is_invalid() {
    let err = parse("a\tb\tc\t3\t215\tL\t9223372036854775808\t").unwrap_err();
    match err {
        ParseError::InvalidTimestamp(raw) => assert_eq!(raw, "9223372036854775808"),
        other => panic!("expected InvalidTimestamp, got {:?}", other),
    }
}

#[test]
fn parse_non_numeric_timestamp_is_invalid() {
    let err = parse("a\tb\tc\t3\t215\tL\t12a\t").unwrap_err();
    assert!(matches!(err, ParseError::InvalidTimestamp(_)));
}

#[test]
fn parse_field_errors_in_wire_order() {
    // A bad track position is reported before the equally bad rating.
    let err = parse("a\tb\tc\tx\t215\tX\t0\t").unwrap_err();
    assert!(matches!(err, ParseError::InvalidTrackPosition(_)));
}

#[test]
fn parse_empty_text_fields() {
    let rec = parse("\t\t\t\t0\tS\t0\t").unwrap();
    assert_eq!(rec.artist, "");
    assert_eq!(rec.album, "");
    assert_eq!(rec.track, "");
    assert_eq!(rec.track_position, None);
    assert_eq!(rec.duration_seconds, 0);
    assert_eq!(rec.timestamp, 0);
    assert_eq!(rec.track_id, None);
}

#[test]
fn parse_track_id_keeps_tabs() {
    let rec = parse("a\tb\tc\t3\t215\tL\t0\tid\twith\ttabs").unwrap();
    assert_eq!(rec.track_id.as_deref(), Some("id\twith\ttabs"));
}

use scrobble_fix::{
    correct, parse, serialize, CorrectionError, Rating, Record, CUTOFF_TIMESTAMP, OFFSET_DAYS,
    OFFSET_SECONDS, SECONDS_PER_DAY,
};

fn sample_record(timestamp: i64) -> Record {
    Record {
        artist: "Artist".to_string(),
        album: "Album".to_string(),
        track: "Track".to_string(),
        track_position: Some(3),
        duration_seconds: 215,
        rating: Rating::Listened,
        timestamp,
        track_id: Some("abc123".to_string()),
    }
}

#[test]
fn offset_constants() {
    assert_eq!(OFFSET_DAYS, 8245);
    assert_eq!(SECONDS_PER_DAY, 86400);
    assert_eq!(OFFSET_SECONDS, 8245 * 86400);
    assert_eq!(CUTOFF_TIMESTAMP, 1104537600);
}

#[test]
fn correct_at_cutoff_unchanged() {
    let rec = sample_record(CUTOFF_TIMESTAMP);
    let fixed = correct(rec, CUTOFF_TIMESTAMP).unwrap();
    assert_eq!(fixed.timestamp, CUTOFF_TIMESTAMP);
}

#[test]
fn correct_after_cutoff_unchanged() {
    let rec = sample_record(CUTOFF_TIMESTAMP + 1);
    let fixed = correct(rec, CUTOFF_TIMESTAMP).unwrap();
    assert_eq!(fixed.timestamp, CUTOFF_TIMESTAMP + 1);
}

#[test]
fn correct_one_second_before_cutoff_shifts_whole_offset() {
    let rec = sample_record(CUTOFF_TIMESTAMP - 1);
    let fixed = correct(rec, CUTOFF_TIMESTAMP).unwrap();
    assert_eq!(fixed.timestamp, CUTOFF_TIMESTAMP - 1 + 8245 * 86400);
}

#[test]
fn correct_keeps_other_fields() {
    let rec = sample_record(0);
    let fixed = correct(rec, CUTOFF_TIMESTAMP).unwrap();
    assert_eq!(fixed.artist, "Artist");
    assert_eq!(fixed.album, "Album");
    assert_eq!(fixed.track, "Track");
    assert_eq!(fixed.track_position, Some(3));
    assert_eq!(fixed.duration_seconds, 215);
    assert!(matches!(fixed.rating, Rating::Listened));
    assert_eq!(fixed.track_id.as_deref(), Some("abc123"));
}

#[test]
fn correct_idempotent_concrete() {
    let once = correct(sample_record(978307200), CUTOFF_TIMESTAMP).unwrap();
    let ts_once = once.timestamp;
    let twice = correct(once, CUTOFF_TIMESTAMP).unwrap();
    assert_eq!(twice.timestamp, ts_once);
}

#[test]
fn correct_overflow() {
    let rec = sample_record(i64::MAX - 1);
    let err = correct(rec, i64::MAX).unwrap_err();
    assert!(matches!(err, CorrectionError::OffsetOverflow));
}

#[test]
fn end_to_end_example() {
    // Timestamp 978307200 is 2001-01-01T00:00:00Z, before the cutoff.
    let rec = parse("Artist\tAlbum\tTrack\t3\t215\tL\t978307200\tabc123").unwrap();
    let fixed = correct(rec, CUTOFF_TIMESTAMP).unwrap();
    let line = serialize(&fixed);
    let expected_ts = 978307200i64 + 8245 * 86400;
    assert_eq!(expected_ts, 1690675200);
    assert_eq!(line, "Artist\tAlbum\tTrack\t3\t215\tL\t1690675200\tabc123");
}

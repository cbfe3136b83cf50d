use scrobble_fix::{parse, serialize, Rating, Record};

#[test]
fn round_trip_full_line() {
    let line = "Artist\tAlbum\tTrack\t3\t215\tL\t978307200\tabc123";
    let rec = parse(line).unwrap();
    assert_eq!(serialize(&rec), line);
}

#[test]
fn round_trip_absent_optional_fields() {
    let line = "Artist\tAlbum\tTrack\t\t215\tS\t978307200\t";
    let rec = parse(line).unwrap();
    assert_eq!(rec.track_position, None);
    assert_eq!(rec.track_id, None);
    assert_eq!(serialize(&rec), line);
}

#[test]
fn round_trip_missing_eighth_field_gains_trailing_tab() {
    // With no eighth field at all, the absent track id serializes as the
    // empty field after a seventh tab; reparsing gives the same record.
    let rec = parse("Artist\tAlbum\tTrack\t3\t215\tL\t978307200").unwrap();
    let line = serialize(&rec);
    assert_eq!(line, "Artist\tAlbum\tTrack\t3\t215\tL\t978307200\t");
    let again = parse(&line).unwrap();
    assert_eq!(again.track_id, None);
    assert_eq!(serialize(&again), line);
}

#[test]
fn round_trip_negative_timestamp() {
    let line = "a\tb\tc\t\t0\tS\t-12345\t";
    let rec = parse(line).unwrap();
    assert_eq!(rec.timestamp, -12345);
    assert_eq!(serialize(&rec), line);
}

#[test]
fn round_trip_track_id_with_tabs() {
    let line = "a\tb\tc\t1\t2\tL\t3\tid\twith\ttabs";
    let rec = parse(line).unwrap();
    assert_eq!(serialize(&rec), line);
}

#[test]
fn serialize_built_record() {
    let rec = Record {
        artist: "The Artist".to_string(),
        album: "".to_string(),
        track: "Song".to_string(),
        track_position: None,
        duration_seconds: 0,
        rating: Rating::Skipped,
        timestamp: i64::MIN,
        track_id: None,
    };
    assert_eq!(serialize(&rec), "The Artist\t\tSong\t\t0\tS\t-9223372036854775808\t");
}

#[test]
fn serialize_normalizes_plus_sign_and_zeros() {
    // "+3" and "007" decode to plain numbers; serialization emits the
    // canonical decimal, and the records still agree after a reparse.
    let rec = parse("a\tb\tc\t+3\t007\tL\t0\t").unwrap();
    let line = serialize(&rec);
    assert_eq!(line, "a\tb\tc\t3\t7\tL\t0\t");
    let again = parse(&line).unwrap();
    assert_eq!(again.track_position, rec.track_position);
    assert_eq!(again.duration_seconds, rec.duration_seconds);
}

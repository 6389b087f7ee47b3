use rescrobbled::cache::{plan_batches, replay_retained, retained_of_batch, CachedScrobble};
use rescrobbled::codec::{decode_records, encode_records};
use rescrobbled::track::Track;

fn record(ts: u64, artist: &str, title: &str, album: Option<&str>) -> CachedScrobble {
    CachedScrobble::new(ts, Track::new(artist, title, album))
}

fn assert_same(a: &CachedScrobble, b: &CachedScrobble) {
    assert_eq!(a.timestamp(), b.timestamp());
    assert!(a.track() == b.track());
}

#[test]
fn test_getters() {
    let r = record(42, "A", "B", Some("C"));
    assert_eq!(r.timestamp(), 42);
    assert_eq!(r.track().artist(), "A");
    assert_eq!(r.track().title(), "B");
    assert_eq!(r.track().album(), Some("C"));
}

#[test]
fn test_encode_empty_store() {
    let records: Vec<CachedScrobble> = Vec::new();
    let text = encode_records(&records);
    assert_eq!(text, "timestamp,artist,title,album\n");
    let back = decode_records(&text).unwrap();
    assert!(back.is_empty());
}

#[test]
fn test_encode_plain_records() {
    let records = vec![
        record(12345, "Artist", "Title", Some("Album")),
        record(67890, "Other", "Song", None),
    ];
    let text = encode_records(&records);
    assert_eq!(
        text,
        "timestamp,artist,title,album\n12345,Artist,Title,Album\n67890,Other,Song,\n"
    );
}

#[test]
fn test_encode_quoted_records() {
    let records = vec![record(7, "Foo, \"Bar\"", "Li\nne", "Al,bum".into())];
    let text = encode_records(&records);
    assert_eq!(
        text,
        "timestamp,artist,title,album\n7,\"Foo, \"\"Bar\"\"\",\"Li\nne\",\"Al,bum\"\n"
    );
}

#[test]
fn test_round_trip_plain() {
    let records = vec![
        record(1, "a", "b", None),
        record(2, "c", "d", Some("e")),
        record(u64::MAX, "", "", None),
    ];
    let text = encode_records(&records);
    let back = decode_records(&text).unwrap();
    assert_eq!(back.len(), records.len());
    for (a, b) in records.iter().zip(back.iter()) {
        assert_same(a, b);
    }
}

#[test]
fn test_round_trip_special_characters() {
    let records = vec![
        record(10, "com,ma", "quo\"te", Some("new\nline")),
        record(11, "\"", "\"\"", Some(",\r\n\",")),
        record(12, "ünïcodé — артист", "曲名", Some("álbum")),
    ];
    let text = encode_records(&records);
    let back = decode_records(&text).unwrap();
    assert_eq!(back.len(), records.len());
    for (a, b) in records.iter().zip(back.iter()) {
        assert_same(a, b);
    }
}

#[test]
fn test_decode_rejects_bad_header() {
    assert!(decode_records("timestamp,artist,album,title\n1,a,b,c\n").is_none());
    assert!(decode_records("").is_none());
}

#[test]
fn test_decode_rejects_bad_rows() {
    // a non-numeric timestamp
    assert!(decode_records("timestamp,artist,title,album\nxyz,a,b,c\n").is_none());
    // an out-of-range timestamp
    assert!(
        decode_records("timestamp,artist,title,album\n99999999999999999999999,a,b,c\n").is_none()
    );
    // a row with too few fields
    assert!(decode_records("timestamp,artist,title,album\n1,a,b\n").is_none());
    // an unterminated quote
    assert!(decode_records("timestamp,artist,title,album\n1,\"a,b,c\n").is_none());
}

#[test]
fn test_decode_empty_album_is_no_album() {
    let back = decode_records("timestamp,artist,title,album\n5,a,b,\n").unwrap();
    assert_eq!(back.len(), 1);
    assert_eq!(back[0].track().album(), None);
}

#[test]
fn test_plan_batches() {
    assert_eq!(plan_batches(0), vec![]);
    assert_eq!(plan_batches(5), vec![(0, 5)]);
    assert_eq!(plan_batches(20), vec![(0, 20)]);
    assert_eq!(plan_batches(25), vec![(0, 20), (20, 25)]);
    assert_eq!(plan_batches(40), vec![(0, 20), (20, 40)]);
}

#[test]
fn test_retained_of_batch_first_failure_keeps_rest() {
    let batch: Vec<CachedScrobble> = (0..5).map(|i| record(i, "a", "b", None)).collect();
    // one service took records 0 and 1 and failed on 2
    let retained = retained_of_batch(&batch, &vec![Some(2)]);
    assert_eq!(retained.len(), 3);
    assert_eq!(retained[0].timestamp(), 2);
    assert_eq!(retained[2].timestamp(), 4);
    // every service took the whole batch
    let retained = retained_of_batch(&batch, &vec![None, None]);
    assert!(retained.is_empty());
    // two services: the earliest failure wins
    let retained = retained_of_batch(&batch, &vec![Some(4), Some(1)]);
    assert_eq!(retained.len(), 4);
    assert_eq!(retained[0].timestamp(), 1);
}

#[test]
fn test_scenario_replay_25_records_failure_at_22() {
    // 25 pending records, batch size 20, the service fails on record 22
    // (the second record of the second batch): records 22 to 25 stay
    // cached, records 1 to 21 are dropped.
    let records: Vec<CachedScrobble> = (1..=25).map(|i| record(i, "a", "b", None)).collect();
    let batches = plan_batches(records.len());
    assert_eq!(batches, vec![(0, 20), (20, 25)]);
    let fails = vec![vec![None], vec![Some(1)]];
    let retained = replay_retained(&records, &fails);
    assert_eq!(retained.len(), 4);
    let kept: Vec<u64> = retained.iter().map(|r| r.timestamp()).collect();
    assert_eq!(kept, vec![22, 23, 24, 25]);
}

#[test]
fn test_replay_all_delivered_retains_nothing() {
    let records: Vec<CachedScrobble> = (1..=25).map(|i| record(i, "a", "b", None)).collect();
    let fails = vec![vec![None, None], vec![None, None]];
    let retained = replay_retained(&records, &fails);
    assert!(retained.is_empty());
}

#[test]
fn test_replayed_record_keeps_its_timestamp() {
    // the timestamp computed when the scrobble first fired survives the
    // cache round trip, so a replayed delivery names the same listen
    let records = vec![record(1_700_000_000, "a", "b", None)];
    let text = encode_records(&records);
    let back = decode_records(&text).unwrap();
    assert_eq!(back[0].timestamp(), 1_700_000_000);
}

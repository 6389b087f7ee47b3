//! The store codec against a general tabular-data library: both sides
//! write the same bytes and read each other's output.

use rescrobbled::cache::CachedScrobble;
use rescrobbled::codec::{decode_records, encode_records};
use rescrobbled::track::Track;

fn sample_records() -> Vec<CachedScrobble> {
    vec![
        CachedScrobble::new(12345, Track::new("Artist", "Title", Some("Album"))),
        CachedScrobble::new(67890, Track::new("Foo, \"Bar\"", "Li\nne", None)),
        CachedScrobble::new(0, Track::new("", "", Some("x"))),
    ]
}

fn csv_fields(r: &CachedScrobble) -> Vec<String> {
    vec![
        r.timestamp().to_string(),
        r.track().artist().to_string(),
        r.track().title().to_string(),
        r.track().album().unwrap_or("").to_string(),
    ]
}

#[test]
fn test_writer_output_matches() {
    let records = sample_records();

    let mut writer = csv::Writer::from_writer(Vec::new());
    writer
        .write_record(&["timestamp", "artist", "title", "album"])
        .unwrap();
    for r in &records {
        writer.write_record(&csv_fields(r)).unwrap();
    }
    let reference = String::from_utf8(writer.into_inner().unwrap()).unwrap();

    assert_eq!(encode_records(&records), reference);
}

#[test]
fn test_reader_accepts_our_output() {
    let records = sample_records();
    let text = encode_records(&records);

    let mut reader = csv::Reader::from_reader(text.as_bytes());
    assert_eq!(
        reader.headers().unwrap(),
        &csv::StringRecord::from(vec!["timestamp", "artist", "title", "album"])
    );
    let rows: Vec<csv::StringRecord> = reader.records().map(|r| r.unwrap()).collect();
    assert_eq!(rows.len(), records.len());
    for (row, r) in rows.iter().zip(records.iter()) {
        assert_eq!(row, &csv::StringRecord::from(csv_fields(r)));
    }
}

#[test]
fn test_we_accept_writer_output() {
    let records = sample_records();

    let mut writer = csv::Writer::from_writer(Vec::new());
    writer
        .write_record(&["timestamp", "artist", "title", "album"])
        .unwrap();
    for r in &records {
        writer.write_record(&csv_fields(r)).unwrap();
    }
    let reference = String::from_utf8(writer.into_inner().unwrap()).unwrap();

    let back = decode_records(&reference).unwrap();
    assert_eq!(back.len(), records.len());
    for (a, b) in records.iter().zip(back.iter()) {
        assert_eq!(a.timestamp(), b.timestamp());
        assert!(a.track() == b.track());
    }
}

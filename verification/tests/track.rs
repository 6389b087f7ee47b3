use rescrobbled::track::Track;

#[test]
fn test_new() {
    // Constructing a track with an empty album should result in `None` for `Track::album()`

    assert_eq!(
        Track::new("Enter Shikari", "Live Outside", None).album(),
        None
    );

    // Constructing a track with a nonempty album should result in `Some` for `Track::album()`

    assert_eq!(
        Track::new("Dimension", "Psycho", Some("Organ")).album(),
        Some("Organ")
    );
}

#[test]
fn test_new_empty_album_is_none() {
    let track = Track::new("Dimension", "Psycho", Some(""));
    assert_eq!(track.album(), None);
    assert_eq!(track.artist(), "Dimension");
    assert_eq!(track.title(), "Psycho");
}

#[test]
fn test_from_fields_without_album() {
    let track = Track::from_fields(Some("Billy Joel"), Some("We didn't start the fire"), None);
    assert_eq!(track.artist(), "Billy Joel");
    assert_eq!(track.title(), "We didn't start the fire");
    assert_eq!(track.album(), None);
}

#[test]
fn test_from_fields_empty_album() {
    let track = Track::from_fields(Some("The Prodigy"), Some("Wild Frontier"), Some(""));
    assert_eq!(track.album(), None);
}

#[test]
fn test_from_fields_with_album() {
    let track = Track::from_fields(
        Some("Men At Work"),
        Some("Who Can It Be Now?"),
        Some("Business As Usual"),
    );
    assert_eq!(track.album(), Some("Business As Usual"));
}

#[test]
fn test_from_fields_missing_artist_and_title() {
    let track = Track::from_fields(None, None, None);
    assert_eq!(track.artist(), "");
    assert_eq!(track.title(), "");
    assert_eq!(track.album(), None);
}

#[test]
fn test_equality_is_structural() {
    let a = Track::new("A", "B", Some("C"));
    let b = Track::new("A", "B", Some("C"));
    let c = Track::new("A", "B", None);
    assert!(a == b);
    assert!(a != c);
}

#[test]
fn test_clear_and_clone_from() {
    let mut track = Track::new("A", "B", Some("C"));
    track.clear();
    assert_eq!(track.artist(), "");
    assert_eq!(track.title(), "");
    assert_eq!(track.album(), None);

    let other = Track::new("X", "Y", Some("Z"));
    track.clone_from(&other);
    assert!(track == other);
}

use rescrobbled::filter::{event_track, filter_input, parse_filter_output, FilterResult};
use rescrobbled::track::Track;

#[test]
fn test_filter_input_lines() {
    let track = Track::new("lorem", "ipsum", Some("dolor"));
    let genres = vec!["rock".to_string(), "pop".to_string()];
    let input: String = filter_input(&track, &genres).into_iter().collect();
    assert_eq!(input, "lorem\nipsum\ndolor\nrock,pop\n");
}

#[test]
fn test_filter_input_missing_album_and_genres() {
    let track = Track::new("lorem", "ipsum", None);
    let input: String = filter_input(&track, &Vec::new()).into_iter().collect();
    assert_eq!(input, "lorem\nipsum\n\n\n");
}

#[test]
fn test_filter_output_rewritten() {
    // a script that echoes three prefixed lines rewrites the track
    assert_eq!(
        parse_filter_output("Artist=lorem\nTitle=ipsum\nAlbum=dolor\n"),
        FilterResult::Filtered(Track::new(
            "Artist=lorem",
            "Title=ipsum",
            Some("Album=dolor")
        ))
    );
}

#[test]
fn test_filter_output_without_album() {
    // the third line may be empty: the rewritten track has no album
    assert_eq!(
        parse_filter_output("lorem\nipsum\n\n"),
        FilterResult::Filtered(Track::new("lorem", "ipsum", None))
    );
}

#[test]
fn test_filter_output_two_lines() {
    // two newline-terminated lines are enough; no album comes back
    assert_eq!(
        parse_filter_output("lorem\nipsum\n"),
        FilterResult::Filtered(Track::new("lorem", "ipsum", None))
    );
}

#[test]
fn test_filter_output_ignored() {
    // no line break at all: the event is suppressed
    assert_eq!(parse_filter_output(""), FilterResult::Ignored);
    assert_eq!(parse_filter_output("just one line"), FilterResult::Ignored);
}

#[test]
fn test_scenario_ignored_suppresses_dispatch() {
    // an ignored track reaches no service: there is nothing to dispatch
    let ignored = parse_filter_output("true");
    assert_eq!(ignored, FilterResult::Ignored);
    assert!(event_track(&ignored).is_none());

    // a passed-through track does get dispatched
    let passed = FilterResult::NotFiltered(Track::new("a", "b", None));
    assert!(event_track(&passed).is_some());
}

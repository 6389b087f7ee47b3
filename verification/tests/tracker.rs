use rescrobbled::config::Config;
use rescrobbled::track::Track;
use rescrobbled::tracker::{get_min_play_time, tick, Session, TickInput};

fn playing(track: &Track, length: Option<u64>, dt: u64) -> TickInput {
    TickInput { playing: true, track: track.clone(), track_length: length, dt }
}

#[test]
fn test_min_play_time_half_length() {
    // 200 s track, no override: threshold is half the length
    let config = Config::default();
    assert_eq!(get_min_play_time(&config, Some(200_000)), 100_000);
}

#[test]
fn test_min_play_time_capped() {
    // 10 minute track: the threshold is capped at four minutes
    let config = Config::default();
    assert_eq!(get_min_play_time(&config, Some(600_000)), 240_000);
}

#[test]
fn test_min_play_time_unknown_length() {
    // unknown or zero length: four minutes stand in for the length
    let config = Config::default();
    assert_eq!(get_min_play_time(&config, None), 120_000);
    assert_eq!(get_min_play_time(&config, Some(0)), 120_000);
}

#[test]
fn test_min_play_time_override() {
    let mut config = Config::default();
    config.min_play_time = Some(10_000);
    assert_eq!(get_min_play_time(&config, Some(200_000)), 10_000);
}

#[test]
fn test_scenario_threshold_crossing() {
    // 200 s track, no override: threshold 100 s. No scrobble at 99 s,
    // exactly one at 101 s.
    let track = Track::new("A", "B", None);
    let length = Some(200_000);

    let session = Session::new();
    let (session, ev) = tick(&session, &playing(&track, length, 99_000), None);
    assert!(ev.now_playing);
    assert!(!ev.scrobble);
    assert_eq!(session.elapsed, 99_000);

    let (session, ev) = tick(&session, &playing(&track, length, 2_000), None);
    assert!(!ev.now_playing);
    assert!(!ev.scrobble); // at 99 s the threshold is not yet crossed
    assert_eq!(session.elapsed, 101_000);

    let (session, ev) = tick(&session, &playing(&track, length, 500), None);
    assert!(ev.scrobble); // at 101 s it is, exactly once
    assert!(session.scrobbled);

    let (session, ev) = tick(&session, &playing(&track, length, 500), None);
    assert!(!ev.scrobble); // and never again this session
    assert!(session.scrobbled);
}

#[test]
fn test_scenario_rearm_after_play_through() {
    // a scrobbled track played to its full length re-arms and can
    // scrobble once more
    let track = Track::new("A", "B", None);
    let length = Some(200_000);

    let mut session = Session::new();
    let mut fired = 0;
    // play up to the scrobble
    for _ in 0..3 {
        let (next, ev) = tick(&session, &playing(&track, length, 70_000), None);
        session = next;
        if ev.scrobble {
            fired += 1;
        }
    }
    assert_eq!(fired, 1);
    assert!(session.scrobbled);

    // keep playing past the track length: the session re-arms
    let (session, ev) = tick(&session, &playing(&track, length, 50_000), None);
    assert!(!ev.scrobble);
    assert!(!session.scrobbled); // elapsed reached the length: re-armed
    assert_eq!(session.elapsed, 50_000);

    // and the repeated play scrobbles once more
    let (session, ev) = tick(&session, &playing(&track, length, 60_000), None);
    assert!(!ev.scrobble);
    let (session, ev) = tick(&session, &playing(&track, length, 0), None);
    assert!(ev.scrobble);
    assert!(session.scrobbled);
}

#[test]
fn test_scenario_short_track_never_scrobbles() {
    // 20 s track, below the 30 s floor: now-playing still fires, a
    // scrobble never does, however long it plays
    let track = Track::new("A", "B", None);
    let length = Some(20_000);

    let mut session = Session::new();
    let mut announced = 0;
    for _ in 0..100 {
        let (next, ev) = tick(&session, &playing(&track, length, 60_000), None);
        session = next;
        if ev.now_playing {
            announced += 1;
        }
        assert!(!ev.scrobble);
        assert!(!session.scrobbled);
    }
    assert_eq!(announced, 1);
}

#[test]
fn test_exact_floor_never_scrobbles() {
    // a track of exactly 30 s is still below the "longer than 30 s" bar
    let track = Track::new("A", "B", None);
    let mut session = Session::new();
    for _ in 0..10 {
        let (next, ev) = tick(&session, &playing(&track, Some(30_000), 60_000), None);
        session = next;
        assert!(!ev.scrobble);
    }
}

#[test]
fn test_unknown_length_is_eligible() {
    // unknown length does not block scrobbling; the threshold is 120 s
    let track = Track::new("A", "B", None);
    let session = Session::new();
    let (session, ev) = tick(&session, &playing(&track, None, 121_000), None);
    assert!(!ev.scrobble);
    let (_, ev) = tick(&session, &playing(&track, None, 0), None);
    assert!(ev.scrobble);
}

#[test]
fn test_zero_length_is_eligible() {
    let track = Track::new("A", "B", None);
    let session = Session::new();
    let (session, _) = tick(&session, &playing(&track, Some(0), 121_000), None);
    let (_, ev) = tick(&session, &playing(&track, Some(0), 0), None);
    assert!(ev.scrobble);
}

#[test]
fn test_track_change_resets_session() {
    let first = Track::new("A", "B", None);
    let second = Track::new("C", "D", None);
    let length = Some(200_000);

    let session = Session::new();
    let (session, _) = tick(&session, &playing(&first, length, 150_000), None);
    let (session, ev) = tick(&session, &playing(&second, length, 1_000), None);
    assert!(ev.now_playing); // the new track announces itself
    assert!(!ev.scrobble);
    assert_eq!(session.elapsed, 1_000); // elapsed started over
    assert!(!session.scrobbled);
    assert!(session.current_track == second);
}

#[test]
fn test_not_playing_changes_nothing() {
    let track = Track::new("A", "B", None);
    let session = Session::new();
    let (session, _) = tick(&session, &playing(&track, Some(200_000), 50_000), None);
    let paused = TickInput {
        playing: false,
        track: Track::new("A", "B", None),
        track_length: Some(200_000),
        dt: 99_000,
    };
    let (session, ev) = tick(&session, &paused, None);
    assert!(!ev.now_playing);
    assert!(!ev.scrobble);
    assert_eq!(session.elapsed, 50_000); // paused time does not accrue
}

#[test]
fn test_now_playing_fires_once_per_occurrence() {
    let track = Track::new("A", "B", None);
    let session = Session::new();
    let (session, ev) = tick(&session, &playing(&track, None, 500), None);
    assert!(ev.now_playing);
    let (_, ev) = tick(&session, &playing(&track, None, 500), None);
    assert!(!ev.now_playing);
}

#[test]
fn test_override_threshold_drives_tick() {
    // a configured override replaces the computed threshold entirely
    let track = Track::new("A", "B", None);
    let session = Session::new();
    let (session, _) = tick(&session, &playing(&track, Some(200_000), 11_000), Some(10_000));
    let (_, ev) = tick(&session, &playing(&track, Some(200_000), 0), Some(10_000));
    assert!(ev.scrobble); // 11 s elapsed is already past the 10 s override
}

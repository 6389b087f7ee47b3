use rescrobbled::cache::CachedScrobble;
use rescrobbled::config::{Config, ListenBrainzConfig};
use rescrobbled::service::{plan_services, should_cache_scrobble, ServicePlan};
use rescrobbled::track::Track;

#[test]
fn test_plan_services_both_backends() {
    let mut config = Config::default();
    config.lastfm_key = Some("key".to_string());
    config.lastfm_secret = Some("secret".to_string());
    config.listenbrainz = Some(vec![
        ListenBrainzConfig { url: None, token: "tok1".to_string() },
        ListenBrainzConfig {
            url: Some("https://lb.example".to_string()),
            token: "tok2".to_string(),
        },
    ]);
    let (plans, misconfigured) = plan_services(&config);
    assert!(!misconfigured);
    assert_eq!(plans.len(), 3);
    assert!(matches!(&plans[0], ServicePlan::LastFm { key, secret }
        if key == "key" && secret == "secret"));
    assert!(matches!(&plans[1], ServicePlan::ListenBrainz { url: None, token } if token == "tok1"));
    assert!(matches!(&plans[2], ServicePlan::ListenBrainz { url: Some(u), token }
        if u == "https://lb.example" && token == "tok2"));
}

#[test]
fn test_plan_services_half_configured_lastfm() {
    let mut config = Config::default();
    config.lastfm_key = Some("key".to_string());
    let (plans, misconfigured) = plan_services(&config);
    assert!(misconfigured);
    assert!(plans.is_empty());
}

#[test]
fn test_plan_services_none() {
    let (plans, misconfigured) = plan_services(&Config::default());
    assert!(!misconfigured);
    assert!(plans.is_empty());
}

#[test]
fn test_display_names() {
    let lastfm = ServicePlan::LastFm { key: "k".to_string(), secret: "s".to_string() };
    assert_eq!(lastfm.display_name(), "Last.fm");
    let lb = ServicePlan::ListenBrainz { url: None, token: "t".to_string() };
    assert_eq!(lb.display_name(), "ListenBrainz");
    let own = ServicePlan::ListenBrainz {
        url: Some("https://lb.example".to_string()),
        token: "t".to_string(),
    };
    assert_eq!(own.display_name(), "ListenBrainz (https://lb.example)");
}

#[test]
fn test_requires_album() {
    let lastfm = ServicePlan::LastFm { key: "k".to_string(), secret: "s".to_string() };
    assert!(lastfm.requires_album());
    let lb = ServicePlan::ListenBrainz { url: None, token: "t".to_string() };
    assert!(!lb.requires_album());
}

#[test]
fn test_scenario_one_service_fails_submit() {
    // two services; the first takes the scrobble, the second raises an
    // error: the event is cached, carrying the timestamp shared by both
    // dispatches, so the succeeding service can recognize the replay
    let outcomes = vec![true, false];
    assert!(should_cache_scrobble(&outcomes));
    let timestamp = 1_700_000_000;
    let cached = CachedScrobble::new(timestamp, Track::new("a", "b", None));
    assert_eq!(cached.timestamp(), timestamp);

    // every service took it: nothing is cached
    assert!(!should_cache_scrobble(&vec![true, true]));
    // no services at all: nothing to fail, nothing cached
    assert!(!should_cache_scrobble(&Vec::new()));
}

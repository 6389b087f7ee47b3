use rescrobbled::config::{Config, ListenBrainzConfig};

#[test]
fn test_normalize_empty_config() {
    let mut config = Config::default();
    config.normalize();

    assert!(config.listenbrainz_token.is_none());
    assert!(config.listenbrainz.is_none());
}

#[test]
fn test_normalize_listenbrainz_token() {
    let mut config = Config::default();
    config.listenbrainz_token = Some("TEST TOKEN".to_string());
    config.normalize();

    assert!(config.listenbrainz_token.is_none());
    assert!(config.listenbrainz.is_some());
    assert!(matches!(
        &config.listenbrainz.unwrap()[..],
        [ListenBrainzConfig { url: None, token }] if token == "TEST TOKEN"
    ));
}

#[test]
fn test_normalize_listenbrainz_double() {
    let mut config = Config::default();
    config.listenbrainz_token = Some("TEST TOKEN".to_string());
    config.listenbrainz = Some(vec![ListenBrainzConfig {
        url: None,
        token: "SECOND TEST TOKEN".to_string(),
    }]);
    config.normalize();

    assert!(config.listenbrainz_token.is_none());
    assert!(config.listenbrainz.is_some());
}

use rescrobbled::config::Config;
use rescrobbled::player::{is_bus_name_whitelisted, is_whitelisted};

fn config_with(whitelist: &[&str]) -> Config {
    let mut config = Config::default();
    config.player_whitelist = Some(whitelist.iter().map(|s| s.to_string()).collect());
    config
}

#[test]
fn test_no_whitelist_allows_everything() {
    let config = Config::default();
    assert!(is_whitelisted(&config, "Spotify", "org.mpris.MediaPlayer2.spotify"));
}

#[test]
fn test_empty_whitelist_allows_everything() {
    let config = config_with(&[]);
    assert!(is_whitelisted(&config, "Spotify", "org.mpris.MediaPlayer2.spotify"));
}

#[test]
fn test_identity_match() {
    let config = config_with(&["Spotify"]);
    assert!(is_whitelisted(&config, "Spotify", "org.mpris.MediaPlayer2.spotify"));
    assert!(!is_whitelisted(&config, "VLC", "org.mpris.MediaPlayer2.vlc"));
}

#[test]
fn test_bus_name_match() {
    let config = config_with(&["spotify"]);
    assert!(is_whitelisted(&config, "Spotify", "org.mpris.MediaPlayer2.spotify"));
}

#[test]
fn test_bus_name_instance_stripped() {
    let whitelist = vec!["vlc".to_string()];
    assert!(is_bus_name_whitelisted(
        "org.mpris.MediaPlayer2.vlc.instance123",
        &whitelist
    ));
    assert!(is_bus_name_whitelisted("org.mpris.MediaPlayer2.vlc", &whitelist));
    assert!(!is_bus_name_whitelisted(
        "org.mpris.MediaPlayer2.spotify",
        &whitelist
    ));
}

#[test]
fn test_full_bus_name_with_instance_matches_too() {
    let whitelist = vec!["vlc.instance123".to_string()];
    assert!(is_bus_name_whitelisted(
        "org.mpris.MediaPlayer2.vlc.instance123",
        &whitelist
    ));
}

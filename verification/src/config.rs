//! The daemon's configuration, reduced to the plain values the core logic
//! reads. Loading and parsing the on-disk file is the embedding program's
//! job; it hands the result over in this form. All durations are in
//! milliseconds.

use vstd::prelude::*;

verus! {

/// One ListenBrainz-compatible endpooint: an optional instance URL (the
/// main instance when absent) and the user token for it.
pub struct ListenBrainzConfig {
    pub url: Option<String>,
    pub token: String,
}

pub struct Config {
    pub lastfm_key: Option<String>,
    pub lastfm_secret: Option<String>,
    pub listenbrainz_token: Option<String>,
    pub enable_notifications: Option<bool>,
    /// Override for the scrobble threshold, in milliseconds.
    pub min_play_time: Option<u64>,
    pub player_whitelist: Option<Vec<String>>,
    pub filter_script: Option<String>,
    pub listenbrainz: Option<Vec<ListenBrainzConfig>>,
}

impl Default for ListenBrainzConfig {
    fn default() -> (r: ListenBrainzConfig)
        ensures
            r.url is None,
            r.token@ == Seq::<char>::empty(),
    {
        ListenBrainzConfig { url: None, token: String::new() }
    }
}

impl Default for Config {
    fn default() -> (r: Config)
        ensures
            r.lastfm_key is None,
            r.lastfm_secret is None,
            r.listenbrainz_token is None,
            r.enable_notifications is None,
            r.min_play_time is None,
            r.player_whitelist is None,
            r.filter_script is None,
            r.listenbrainz is None,
    {
        Config {
            lastfm_key: None,
            lastfm_secret: None,
            listenbrainz_token: None,
            enable_notifications: None,
            min_play_time: None,
            player_whitelist: None,
            filter_script: None,
            listenbrainz: None,
        }
    }
}

impl Config {
    /// Fold the legacy single-token `listenbrainz_token` option into the
    /// list of `[[listenbrainz]]` definitions: when no explicit list is
    /// given, the token becomes a one-entry list for the main instance;
    /// when both are given, the legacy token is discarded.
    pub fn normalize(&mut self)
        ensures
            final(self).listenbrainz_token is None,
            final(self).lastfm_key == old(self).lastfm_key,
            final(self).lastfm_secret == old(self).lastfm_secret,
            final(self).enable_notifications == old(self).enable_notifications,
            final(self).min_play_time == old(self).min_play_time,
            final(self).player_whitelist == old(self).player_whitelist,
            final(self).filter_script == old(self).filter_script,
            old(self).listenbrainz_token is None ==> final(self).listenbrainz == old(
                self,
            ).listenbrainz,
            old(self).listenbrainz is Some ==> final(self).listenbrainz == old(self).listenbrainz,
            (old(self).listenbrainz is None && old(self).listenbrainz_token is Some) ==> {
                &&& final(self).listenbrainz matches Some(v)
                &&& v@.len() == 1
                &&& v@[0].url is None
                &&& v@[0].token == old(self).listenbrainz_token->Some_0
            },
    {
        if self.listenbrainz_token.is_some() {
            if self.listenbrainz.is_none() {
                let token = self.listenbrainz_token.take().unwrap();
                let mut list: Vec<ListenBrainzConfig> = Vec::new();
                list.push(ListenBrainzConfig { url: None, token });
                self.listenbrainz = Some(list);
            } else {
                self.listenbrainz_token = None;
            }
        }
    }
}

} // verus!

//! Which listening-history services the configuration defines, what each
//! is called, and the dispatch decisions around them: every configured
//! service is offered every event, one service's failure never blocks
//! another, and a scrobble that any service failed to take is cached.
//! Connecting and submitting over the network is the embedding program's
//! job; it reports each service's outcome back as a plain value.

use vstd::prelude::*;

use crate::config::Config;

verus! {

/// Mathematical value of a [`ServicePlan`].
pub ghost enum ServicePlanView {
    LastFm { key: Seq<char>, secret: Seq<char> },
    ListenBrainz { url: Option<Seq<char>>, token: Seq<char> },
}

/// One remote service the configuration asks for, with the credentials
/// the embedding program needs to connect to it.
pub enum ServicePlan {
    /// A Last.fm account, from the `lastfm-key` / `lastfm-secret` pair.
    LastFm { key: String, secret: String },
    /// A ListenBrainz-compatible endpoint; the main instance when no URL
    /// is given.
    ListenBrainz { url: Option<String>, token: String },
}

impl View for ServicePlan {
    type V = ServicePlanView;

    open spec fn view(&self) -> ServicePlanView {
        match self {
            ServicePlan::LastFm { key, secret } => ServicePlanView::LastFm {
                key: key@,
                secret: secret@,
            },
            ServicePlan::ListenBrainz { url, token } => ServicePlanView::ListenBrainz {
                url: match url {
                    Some(u) => Some(u@),
                    None => None,
                },
                token: token@,
            },
        }
    }
}

/// What [`ServicePlan::display_name`] returns for each backend.
pub open spec fn display_name_spec(p: ServicePlanView) -> Seq<char> {
    match p {
        ServicePlanView::LastFm { .. } => "Last.fm"@,
        ServicePlanView::ListenBrainz { url, .. } => match url {
            None => "ListenBrainz"@,
            Some(u) => "ListenBrainz ("@ + u + ")"@,
        },
    }
}

impl ServicePlan {
    /// The name a service is reported under: a non-default ListenBrainz
    /// endpoint carries its URL.
    pub fn display_name(&self) -> (r: String)
        ensures
            r@ == display_name_spec(self@),
    {
        match self {
            ServicePlan::LastFm { .. } => String::from_str("Last.fm"),
            ServicePlan::ListenBrainz { url: None, .. } => String::from_str("ListenBrainz"),
            ServicePlan::ListenBrainz { url: Some(u), .. } => {
                let mut s = String::from_str("ListenBrainz (");
                s.append(u.as_str());
                s.append(")");
                s
            },
        }
    }

    /// Whether this backend rejects a track that has no album.
    pub fn requires_album(&self) -> (r: bool)
        ensures
            r == (self@ is LastFm),
    {
        match self {
            ServicePlan::LastFm { .. } => true,
            ServicePlan::ListenBrainz { .. } => false,
        }
    }
}

/// The services a configuration defines, in dispatch order: the Last.fm
/// account when both credentials are given, then every `[[listenbrainz]]`
/// entry. The second result reports a half-configured Last.fm account
/// (exactly one of key and secret): that service is absent and the
/// embedding program warns about it.
pub fn plan_services(config: &Config) -> (r: (Vec<ServicePlan>, bool))
    ensures
        r.1 == ((config.lastfm_key is Some) != (config.lastfm_secret is Some)),
        ({
            let lastfm: int = if config.lastfm_key is Some && config.lastfm_secret is Some {
                1
            } else {
                0
            };
            let lb_len: int = match config.listenbrainz {
                Some(ref v) => v@.len() as int,
                None => 0,
            };
            &&& r.0@.len() == lastfm + lb_len
            &&& (config.lastfm_key is Some && config.lastfm_secret is Some ==> r.0@[0]@
                == (ServicePlanView::LastFm {
                key: config.lastfm_key->Some_0@,
                secret: config.lastfm_secret->Some_0@,
            }))
            &&& (config.listenbrainz matches Some(lbs) ==> forall|k: int|
                0 <= k < lbs@.len() ==> r.0@[lastfm + k]@ == (ServicePlanView::ListenBrainz {
                    url: match (#[trigger] lbs@[k]).url {
                        Some(ref u) => Some(u@),
                        None => None,
                    },
                    token: lbs@[k].token@,
                }))
        }),
{
    let mut plans: Vec<ServicePlan> = Vec::new();
    let mut lastfm_misconfigured = false;
    match (&config.lastfm_key, &config.lastfm_secret) {
        (Some(key), Some(secret)) => {
            plans.push(ServicePlan::LastFm { key: key.clone(), secret: secret.clone() });
        },
        (None, None) => {},
        _ => {
            lastfm_misconfigured = true;
        },
    }
    let ghost lastfm: int = plans@.len() as int;
    match &config.listenbrainz {
        Some(lbs) => {
            let mut k: usize = 0;
            while k < lbs.len()
                invariant
                    k <= lbs@.len(),
                    plans@.len() == lastfm + k,
                    lastfm == (if config.lastfm_key is Some && config.lastfm_secret is Some {
                        1int
                    } else {
                        0int
                    }),
                    config.lastfm_key is Some && config.lastfm_secret is Some ==> plans@[0]@
                        == (ServicePlanView::LastFm {
                        key: config.lastfm_key->Some_0@,
                        secret: config.lastfm_secret->Some_0@,
                    }),
                    config.listenbrainz matches Some(l) && l == lbs,
                    forall|m: int|
                        0 <= m < k ==> plans@[lastfm + m]@ == (ServicePlanView::ListenBrainz {
                            url: match (#[trigger] lbs@[m]).url {
                                Some(ref u) => Some(u@),
                                None => None,
                            },
                            token: lbs@[m].token@,
                        }),
                decreases lbs@.len() - k,
            {
                let url = match &lbs[k].url {
                    Some(u) => Some(u.clone()),
                    None => None,
                };
                plans.push(ServicePlan::ListenBrainz { url, token: lbs[k].token.clone() });
                k = k + 1;
            }
        },
        None => {},
    }
    (plans, lastfm_misconfigured)
}

/// Whether a scrobble event must be written to the cache: it must
/// exactly when at least one service failed to take it. A "now playing"
/// update is never cached, whatever its outcomes.
pub fn should_cache_scrobble(outcomes: &Vec<bool>) -> (r: bool)
    ensures
        r == exists|i: int| 0 <= i < outcomes@.len() && !outcomes@[i],
{
    let mut i: usize = 0;
    while i < outcomes.len()
        invariant
            i <= outcomes@.len(),
            forall|k: int| 0 <= k < i ==> outcomes@[k],
        decreases outcomes@.len() - i,
    {
        if !outcomes[i] {
            return true;
        }
        i = i + 1;
    }
    false
}

} // verus!

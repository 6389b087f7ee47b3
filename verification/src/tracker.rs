//! The playback-tracking state machine: it turns a stream of polled player
//! samples into at most one "now playing" event and at most one scrobble
//! event per listening session, re-arming when a track is played through
//! and starts over. All durations are in milliseconds.

use vstd::prelude::*;

use crate::config::Config;
use crate::track::{Track, TrackView};

verus! {

/// A track at or under this length is never scrobbled (definitional floor).
pub const MIN_TRACK_LENGTH: u64 = 30_000;

/// Upper bound for the scrobble threshold, and the length surrogate used
/// when the player does not report a usable track length.
pub const DEFAULT_MIN_PLAY_TIME: u64 = 240_000;

/// Mathematical value of a [`Session`].
#[verifier::ext_equal]
pub ghost struct SessionView {
    pub current_track: TrackView,
    pub elapsed: u64,
    pub scrobbled: bool,
    pub announced_now_playing: bool,
    pub track_length: Option<u64>,
}

/// The playback session the tracker maintains for the player it follows.
pub struct Session {
    pub current_track: Track,
    pub elapsed: u64,
    pub scrobbled: bool,
    pub announced_now_playing: bool,
    pub track_length: Option<u64>,
}

impl View for Session {
    type V = SessionView;

    open spec fn view(&self) -> SessionView {
        SessionView {
            current_track: self.current_track@,
            elapsed: self.elapsed,
            scrobbled: self.scrobbled,
            announced_now_playing: self.announced_now_playing,
            track_length: self.track_length,
        }
    }
}

/// Mathematical value of a [`TickInput`].
#[verifier::ext_equal]
pub ghost struct TickInputView {
    pub playing: bool,
    pub track: TrackView,
    pub track_length: Option<u64>,
    pub dt: u64,
}

/// One polled sample: whether the player reports active playback, the
/// track and length it reports, and the wall-clock time since the
/// previous poll.
pub struct TickInput {
    pub playing: bool,
    pub track: Track,
    pub track_length: Option<u64>,
    pub dt: u64,
}

impl View for TickInput {
    type V = TickInputView;

    open spec fn view(&self) -> TickInputView {
        TickInputView {
            playing: self.playing,
            track: self.track@,
            track_length: self.track_length,
            dt: self.dt,
        }
    }
}

/// The events one tick decided to fire.
#[derive(PartialEq, Eq, Structural, Clone, Copy, Debug)]
pub struct TickEvents {
    pub now_playing: bool,
    pub scrobble: bool,
}

/// A reported length of zero means the player could not determine it.
pub open spec fn normalize_length(length: Option<u64>) -> Option<u64> {
    match length {
        Some(l) => if l == 0 {
            None
        } else {
            Some(l)
        },
        None => None,
    }
}

/// A track is eligible for scrobbling when its length is unknown or
/// above the 30-second floor.
pub open spec fn scrobble_eligible(length: Option<u64>) -> bool {
    match normalize_length(length) {
        Some(l) => l > MIN_TRACK_LENGTH,
        None => true,
    }
}

/// The scrobble threshold: the configured override if there is one, else
/// half the track length capped at four minutes, an unknown length
/// standing in as four minutes.
pub open spec fn min_play_time_spec(override_ms: Option<u64>, length: Option<u64>) -> u64 {
    match override_ms {
        Some(o) => o,
        None => {
            let l = match normalize_length(length) {
                Some(l) => l,
                None => DEFAULT_MIN_PLAY_TIME,
            };
            if l / 2 < DEFAULT_MIN_PLAY_TIME {
                (l / 2) as u64
            } else {
                DEFAULT_MIN_PLAY_TIME
            }
        },
    }
}

/// Addition of elapsed play time, pinned at the top of the range.
pub open spec fn sat_add_spec(a: u64, b: u64) -> u64 {
    if a + b > u64::MAX {
        u64::MAX
    } else {
        (a + b) as u64
    }
}

/// What one poll tick does: the next session state and the events fired.
///
/// A tick on which the player is not actively playing changes nothing.
/// Otherwise, in order: a changed track resets the session and announces
/// itself; an unannounced track is announced; the scrobble fires once the
/// elapsed play time passes the threshold on an eligible track; a track
/// already scrobbled and played to its full length re-arms; and the
/// wall-clock time since the previous tick is accrued.
pub open spec fn tick_spec(s: SessionView, i: TickInputView, override_ms: Option<u64>) -> (
    SessionView,
    TickEvents,
) {
    if !i.playing {
        (s, TickEvents { now_playing: false, scrobble: false })
    } else {
        let len = normalize_length(i.track_length);
        let changed = i.track != s.current_track;
        let s1 = if changed {
            SessionView {
                current_track: i.track,
                elapsed: 0,
                scrobbled: false,
                announced_now_playing: true,
                track_length: len,
            }
        } else {
            SessionView { announced_now_playing: true, track_length: len, ..s }
        };
        let now_playing = changed || !s.announced_now_playing;
        let threshold = min_play_time_spec(override_ms, i.track_length);
        let fire = !s1.scrobbled && scrobble_eligible(i.track_length) && s1.elapsed > threshold;
        let s2 = if fire {
            SessionView { scrobbled: true, ..s1 }
        } else if s1.scrobbled && (len matches Some(l) && s1.elapsed >= l) {
            SessionView { elapsed: 0, scrobbled: false, ..s1 }
        } else {
            s1
        };
        let s3 = SessionView { elapsed: sat_add_spec(s2.elapsed, i.dt), ..s2 };
        (s3, TickEvents { now_playing, scrobble: fire })
    }
}

impl Session {
    /// The session the tracker starts from, and returns to whenever the
    /// tracked player is lost: nothing played, nothing announced.
    pub fn new() -> (r: Session)
        ensures
            r@ == (SessionView {
                current_track: TrackView::empty(),
                elapsed: 0,
                scrobbled: false,
                announced_now_playing: false,
                track_length: None,
            }),
    {
        Session {
            current_track: Track::default(),
            elapsed: 0,
            scrobbled: false,
            announced_now_playing: false,
            track_length: None,
        }
    }
}

/// The scrobble threshold for a track of the given reported length,
/// honoring a configured override.
pub fn get_min_play_time(config: &Config, track_length: Option<u64>) -> (r: u64)
    ensures
        r == min_play_time_spec(config.min_play_time, track_length),
{
    get_min_play_time_from(config.min_play_time, track_length)
}

/// Advance the session by one polled sample.
pub fn tick(s: &Session, input: &TickInput, override_ms: Option<u64>) -> (r: (Session, TickEvents))
    ensures
        (r.0@, r.1) == tick_spec(s@, input@, override_ms),
{
    if !input.playing {
        return (
            Session {
                current_track: s.current_track.clone(),
                elapsed: s.elapsed,
                scrobbled: s.scrobbled,
                announced_now_playing: s.announced_now_playing,
                track_length: s.track_length,
            },
            TickEvents { now_playing: false, scrobble: false },
        );
    }
    let len = match input.track_length {
        Some(l) => if l == 0 {
            None
        } else {
            Some(l)
        },
        None => None,
    };
    let changed = input.track != s.current_track;
    let mut next = if changed {
        Session {
            current_track: input.track.clone(),
            elapsed: 0,
            scrobbled: false,
            announced_now_playing: true,
            track_length: len,
        }
    } else {
        Session {
            current_track: s.current_track.clone(),
            elapsed: s.elapsed,
            scrobbled: s.scrobbled,
            announced_now_playing: true,
            track_length: len,
        }
    };
    let now_playing = changed || !s.announced_now_playing;
    let threshold = get_min_play_time_from(override_ms, input.track_length);
    let eligible = match len {
        Some(l) => l > MIN_TRACK_LENGTH,
        None => true,
    };
    let fire = !next.scrobbled && eligible && next.elapsed > threshold;
    if fire {
        next.scrobbled = true;
    } else if next.scrobbled {
        let played_through = match len {
            Some(l) => next.elapsed >= l,
            None => false,
        };
        if played_through {
            next.elapsed = 0;
            next.scrobbled = false;
        }
    }
    next.elapsed = sat_add(next.elapsed, input.dt);
    (next, TickEvents { now_playing, scrobble: fire })
}

/// As [`get_min_play_time`], from a bare override value.
pub fn get_min_play_time_from(override_ms: Option<u64>, track_length: Option<u64>) -> (r: u64)
    ensures
        r == min_play_time_spec(override_ms, track_length),
{
    match override_ms {
        Some(o) => o,
        None => {
            let l = match track_length {
                Some(l) => if l == 0 {
                    DEFAULT_MIN_PLAY_TIME
                } else {
                    l
                },
                None => DEFAULT_MIN_PLAY_TIME,
            };
            if l / 2 < DEFAULT_MIN_PLAY_TIME {
                l / 2
            } else {
                DEFAULT_MIN_PLAY_TIME
            }
        },
    }
}

fn sat_add(a: u64, b: u64) -> (r: u64)
    ensures
        r == sat_add_spec(a, b),
{
    if a <= u64::MAX - b {
        a + b
    } else {
        u64::MAX
    }
}

/// The session state after a whole sequence of ticks.
pub open spec fn run_trace(s: SessionView, inputs: Seq<TickInputView>, override_ms: Option<u64>) -> SessionView
    decreases inputs.len(),
{
    if inputs.len() == 0 {
        s
    } else {
        run_trace(tick_spec(s, inputs[0], override_ms).0, inputs.drop_first(), override_ms)
    }
}

/// How many scrobble events a sequence of ticks fires.
pub open spec fn count_scrobbles(
    s: SessionView,
    inputs: Seq<TickInputView>,
    override_ms: Option<u64>,
) -> nat
    decreases inputs.len(),
{
    if inputs.len() == 0 {
        0nat
    } else {
        (if tick_spec(s, inputs[0], override_ms).1.scrobble {
            1nat
        } else {
            0nat
        }) + count_scrobbles(
            tick_spec(s, inputs[0], override_ms).0,
            inputs.drop_first(),
            override_ms,
        )
    }
}

/// The tick ended the current listening session: it cleared the
/// `scrobbled` flag without firing, either because the track changed or
/// because the track was played through to its full length (re-arming).
pub open spec fn tick_resets_scrobble(
    s: SessionView,
    i: TickInputView,
    override_ms: Option<u64>,
) -> bool {
    let (s2, ev) = tick_spec(s, i, override_ms);
    s.scrobbled && !ev.scrobble && !s2.scrobbled
}

/// How many ticks of a sequence ended a listening session.
pub open spec fn count_scrobble_resets(
    s: SessionView,
    inputs: Seq<TickInputView>,
    override_ms: Option<u64>,
) -> nat
    decreases inputs.len(),
{
    if inputs.len() == 0 {
        0nat
    } else {
        (if tick_resets_scrobble(s, inputs[0], override_ms) {
            1nat
        } else {
            0nat
        }) + count_scrobble_resets(
            tick_spec(s, inputs[0], override_ms).0,
            inputs.drop_first(),
            override_ms,
        )
    }
}

/// With no configured override, the scrobble threshold for a track of
/// known length `l` is the smaller of half the length and four minutes.
pub proof fn lemma_min_play_time_no_override(l: u64)
    requires
        l > 0,
    ensures
        min_play_time_spec(None, Some(l)) == vstd::math::min((l / 2) as int, DEFAULT_MIN_PLAY_TIME as int),
{
}

/// A scrobble can fire at most once more often than listening sessions
/// end: however many ticks run, each firing needs the `scrobbled` flag
/// clear, and only a session-ending tick (track change or play-through)
/// clears it again.
pub proof fn lemma_scrobble_bounded_by_resets(
    s: SessionView,
    inputs: Seq<TickInputView>,
    override_ms: Option<u64>,
)
    ensures
        count_scrobbles(s, inputs, override_ms) <= count_scrobble_resets(s, inputs, override_ms)
            + if s.scrobbled {
            0nat
        } else {
            1nat
        },
    decreases inputs.len(),
{
    if inputs.len() > 0 {
        let (s2, ev) = tick_spec(s, inputs[0], override_ms);
        lemma_scrobble_bounded_by_resets(s2, inputs.drop_first(), override_ms);
    }
}

/// Within one continuous listening session (no tick ends it), a track
/// scrobbles exactly once if the threshold is ever crossed and not at
/// all otherwise: the scrobble count equals the final `scrobbled` flag.
pub proof fn lemma_scrobble_once_per_session(
    s: SessionView,
    inputs: Seq<TickInputView>,
    override_ms: Option<u64>,
)
    requires
        !s.scrobbled,
        count_scrobble_resets(s, inputs, override_ms) == 0,
    ensures
        count_scrobbles(s, inputs, override_ms) == if run_trace(s, inputs, override_ms).scrobbled {
            1nat
        } else {
            0nat
        },
    decreases inputs.len(),
{
    if inputs.len() > 0 {
        let (s2, ev) = tick_spec(s, inputs[0], override_ms);
        if ev.scrobble {
            lemma_scrobbled_stays_without_reset(s2, inputs.drop_first(), override_ms);
        } else {
            lemma_scrobble_once_per_session(s2, inputs.drop_first(), override_ms);
        }
    }
}

/// Once scrobbled, a session that never ends keeps the flag set and
/// fires no further scrobble.
pub proof fn lemma_scrobbled_stays_without_reset(
    s: SessionView,
    inputs: Seq<TickInputView>,
    override_ms: Option<u64>,
)
    requires
        s.scrobbled,
        count_scrobble_resets(s, inputs, override_ms) == 0,
    ensures
        count_scrobbles(s, inputs, override_ms) == 0,
        run_trace(s, inputs, override_ms).scrobbled,
    decreases inputs.len(),
{
    if inputs.len() > 0 {
        let (s2, ev) = tick_spec(s, inputs[0], override_ms);
        lemma_scrobbled_stays_without_reset(s2, inputs.drop_first(), override_ms);
    }
}

/// Re-arming: when a scrobbled track has played through its full length,
/// the next tick of the same track clears the flag and starts the elapsed
/// clock over, and a later tick of the same track past the threshold
/// fires a fresh scrobble.
pub proof fn lemma_rearm_allows_new_scrobble(
    s: SessionView,
    i1: TickInputView,
    i2: TickInputView,
    override_ms: Option<u64>,
)
    requires
        s.scrobbled,
        i1.playing,
        i1.track == s.current_track,
        normalize_length(i1.track_length) matches Some(l) && s.elapsed >= l,
        i2.playing,
        i2.track == s.current_track,
        scrobble_eligible(i2.track_length),
        i1.dt > min_play_time_spec(override_ms, i2.track_length),
    ensures
        ({
            let (s1, ev1) = tick_spec(s, i1, override_ms);
            let (s2, ev2) = tick_spec(s1, i2, override_ms);
            &&& !ev1.scrobble
            &&& !s1.scrobbled
            &&& ev2.scrobble
        }),
{
}

/// A track announces itself at most once per occurrence: once the
/// "now playing" update has fired, no tick of the same track fires it
/// again, and only a track change resets the flag.
pub proof fn lemma_now_playing_once_per_occurrence(
    s: SessionView,
    i: TickInputView,
    override_ms: Option<u64>,
)
    requires
        i.track == s.current_track,
        s.announced_now_playing,
    ensures
        !tick_spec(s, i, override_ms).1.now_playing,
        tick_spec(s, i, override_ms).0.announced_now_playing,
{
}

/// While the track is unchanged and the player is playing, elapsed play
/// time only grows — except on the tick that re-arms a played-through
/// track, which starts the clock over.
pub proof fn lemma_elapsed_monotone(s: SessionView, i: TickInputView, override_ms: Option<u64>)
    requires
        i.playing,
        i.track == s.current_track,
        !tick_resets_scrobble(s, i, override_ms),
    ensures
        tick_spec(s, i, override_ms).0.elapsed >= s.elapsed,
{
}

/// A track at or under the 30-second floor never scrobbles, whatever the
/// session state, elapsed time or configured override.
pub proof fn lemma_short_track_never_scrobbles(
    s: SessionView,
    i: TickInputView,
    override_ms: Option<u64>,
)
    requires
        i.track_length matches Some(l) && 0 < l <= MIN_TRACK_LENGTH,
    ensures
        !tick_spec(s, i, override_ms).1.scrobble,
{
}

} // verus!

//! The immutable value identifying a playable item: artist, title and an
//! optional album. Tracks are compared structurally; an empty album string
//! from a data source means "no album" and is normalized to `None`.

use vstd::prelude::*;

verus! {

/// Mathematical value of a [`Track`]: the three fields as character
/// sequences, with the album already normalized (never `Some` of the
/// empty sequence in a well-formed track).
#[verifier::ext_equal]
pub ghost struct TrackView {
    pub artist: Seq<char>,
    pub title: Seq<char>,
    pub album: Option<Seq<char>>,
}

impl TrackView {
    /// The value of a cleared / freshly created track.
    pub open spec fn empty() -> TrackView {
        TrackView { artist: Seq::empty(), title: Seq::empty(), album: None }
    }

    /// An album is either absent or a nonempty string: sources that use
    /// the empty string to mean "no album" are normalized on construction.
    pub open spec fn wf(self) -> bool {
        self.album matches Some(a) ==> a.len() > 0
    }
}

/// Album normalization applied by every constructor: an empty album
/// string becomes "no album".
pub open spec fn normalize_album(album: Option<Seq<char>>) -> Option<Seq<char>> {
    match album {
        Some(a) => if a.len() > 0 {
            Some(a)
        } else {
            None
        },
        None => None,
    }
}

/// View of an `Option<&str>` argument as an optional character sequence.
pub open spec fn opt_str_view(s: Option<&str>) -> Option<Seq<char>> {
    match s {
        Some(s) => Some(s@),
        None => None,
    }
}

#[derive(Debug)]
pub struct Track {
    artist: String,
    title: String,
    album: Option<String>,
}

impl View for Track {
    type V = TrackView;

    closed spec fn view(&self) -> TrackView {
        TrackView {
            artist: self.artist@,
            title: self.title@,
            album: match self.album {
                Some(a) => Some(a@),
                None => None,
            },
        }
    }
}

impl Track {
    pub fn artist(&self) -> (r: &str)
        ensures
            r@ == self@.artist,
    {
        self.artist.as_str()
    }

    pub fn title(&self) -> (r: &str)
        ensures
            r@ == self@.title,
    {
        self.title.as_str()
    }

    pub fn album(&self) -> (r: Option<&str>)
        ensures
            r matches Some(a) ==> self@.album == Some(a@),
            r is None ==> self@.album is None,
    {
        match &self.album {
            Some(a) => Some(a.as_str()),
            None => None,
        }
    }

    pub fn new(artist: &str, title: &str, album: Option<&str>) -> (r: Track)
        ensures
            r@ == (TrackView {
                artist: artist@,
                title: title@,
                album: normalize_album(opt_str_view(album)),
            }),
            r@.wf(),
    {
        let album = match album {
            Some(a) => if a.is_empty() {
                None
            } else {
                Some(String::from_str(a))
            },
            None => None,
        };
        Track { artist: String::from_str(artist), title: String::from_str(title), album }
    }

    /// Build a track from the optional fields a player reports: a missing
    /// artist or title becomes the empty string, an empty album `None`.
    pub fn from_fields(artist: Option<&str>, title: Option<&str>, album: Option<&str>) -> (r:
        Track)
        ensures
            r@ == (TrackView {
                artist: match artist {
                    Some(a) => a@,
                    None => Seq::empty(),
                },
                title: match title {
                    Some(t) => t@,
                    None => Seq::empty(),
                },
                album: normalize_album(opt_str_view(album)),
            }),
            r@.wf(),
    {
        proof {
            reveal_strlit("");
            assert(""@ =~= Seq::<char>::empty());
        }
        Track::new(artist.unwrap_or(""), title.unwrap_or(""), album)
    }

    pub fn clear(&mut self)
        ensures
            final(self)@ == TrackView::empty(),
    {
        self.artist = String::new();
        self.title = String::new();
        self.album = None;
    }

    pub fn clone_from(&mut self, other: &Track)
        ensures
            final(self)@ == other@,
    {
        self.artist = other.artist.clone();
        self.title = other.title.clone();
        self.album = match &other.album {
            Some(a) => Some(a.clone()),
            None => None,
        };
    }
}

impl Clone for Track {
    fn clone(&self) -> (r: Track)
        ensures
            r@ == self@,
    {
        Track {
            artist: self.artist.clone(),
            title: self.title.clone(),
            album: match &self.album {
                Some(a) => Some(a.clone()),
                None => None,
            },
        }
    }
}

impl Default for Track {
    fn default() -> (r: Track)
        ensures
            r@ == TrackView::empty(),
    {
        Track { artist: String::new(), title: String::new(), album: None }
    }
}

impl PartialEq for Track {
    fn eq(&self, other: &Track) -> (r: bool) {
        let album_eq = match (&self.album, &other.album) {
            (Some(a), Some(b)) => *a == *b,
            (None, None) => true,
            _ => false,
        };
        self.artist == other.artist && self.title == other.title && album_eq
    }
}

impl vstd::std_specs::cmp::PartialEqSpecImpl for Track {
    open spec fn obeys_eq_spec() -> bool {
        true
    }

    open spec fn eq_spec(&self, other: &Track) -> bool {
        self@ == other@
    }
}

} // verus!

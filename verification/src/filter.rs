//! The filter process line protocol: the daemon writes artist, title,
//! album and a comma-joined genre list, one value per line, to a
//! user-supplied process, and reads back either a rewritten track (at
//! least two lines: artist, title, optional album) or anything else,
//! which suppresses the event. Spawning the process is the embedding
//! program's job; this module builds the input and reads the output.

use vstd::prelude::*;

use crate::codec::album_or_empty;
use crate::strings::str_to_chars;
use crate::track::{normalize_album, Track, TrackView};

verus! {

/// What the filter stage decided for one track.
#[derive(Debug)]
pub enum FilterResult {
    /// The configured filter process rewrote the track.
    Filtered(Track),
    /// No filter process is configured; the track passes unchanged.
    NotFiltered(Track),
    /// The filter produced no usable track: suppress the whole event.
    Ignored,
}

impl PartialEq for FilterResult {
    fn eq(&self, other: &FilterResult) -> (r: bool) {
        match (self, other) {
            (FilterResult::Filtered(a), FilterResult::Filtered(b)) => *a == *b,
            (FilterResult::NotFiltered(a), FilterResult::NotFiltered(b)) => *a == *b,
            (FilterResult::Ignored, FilterResult::Ignored) => true,
            _ => false,
        }
    }
}

impl vstd::std_specs::cmp::PartialEqSpecImpl for FilterResult {
    open spec fn obeys_eq_spec() -> bool {
        true
    }

    open spec fn eq_spec(&self, other: &FilterResult) -> bool {
        match (self, other) {
            (FilterResult::Filtered(a), FilterResult::Filtered(b)) => a@ == b@,
            (FilterResult::NotFiltered(a), FilterResult::NotFiltered(b)) => a@ == b@,
            (FilterResult::Ignored, FilterResult::Ignored) => true,
            _ => false,
        }
    }
}

/// The genre list as it is written to the filter: entries joined by commas.
pub open spec fn join_comma(gs: Seq<Seq<char>>) -> Seq<char>
    decreases gs.len(),
{
    if gs.len() == 0 {
        Seq::empty()
    } else if gs.len() == 1 {
        gs[0]
    } else {
        gs[0] + seq![','] + join_comma(gs.drop_first())
    }
}

/// The four newline-terminated lines handed to the filter process.
pub open spec fn filter_input_spec(t: TrackView, genres: Seq<Seq<char>>) -> Seq<char> {
    t.artist + seq!['\n'] + t.title + seq!['\n'] + album_or_empty(t.album) + seq!['\n']
        + join_comma(genres) + seq!['\n']
}

proof fn lemma_join_comma_snoc(gs: Seq<Seq<char>>, g: Seq<char>)
    ensures
        join_comma(gs.push(g)) == if gs.len() == 0 {
            g
        } else {
            join_comma(gs) + seq![','] + g
        },
    decreases gs.len(),
{
    if gs.len() == 0 {
        assert(gs.push(g)[0] == g);
    } else {
        assert(gs.push(g).drop_first() =~= gs.drop_first().push(g));
        assert(gs.push(g)[0] == gs[0]);
        lemma_join_comma_snoc(gs.drop_first(), g);
        if gs.len() == 1 {
            assert(gs.drop_first() =~= Seq::<Seq<char>>::empty());
        } else {
            assert(gs[0] + seq![','] + (join_comma(gs.drop_first()) + seq![','] + g) =~= (gs[0]
                + seq![','] + join_comma(gs.drop_first())) + seq![','] + g);
        }
    }
}

fn push_str_chars(out: &mut Vec<char>, s: &str)
    ensures
        final(out)@ == old(out)@ + s@,
{
    let chars = str_to_chars(s);
    let ghost base = out@;
    let mut i: usize = 0;
    while i < chars.len()
        invariant
            i <= chars@.len(),
            chars@ == s@,
            out@ == base + chars@.subrange(0, i as int),
        decreases chars@.len() - i,
    {
        out.push(chars[i]);
        proof {
            assert(chars@.subrange(0, i + 1) =~= chars@.subrange(0, i as int).push(
                chars@[i as int],
            ));
            assert(base + chars@.subrange(0, i as int).push(chars@[i as int]) =~= (base
                + chars@.subrange(0, i as int)).push(chars@[i as int]));
        }
        i = i + 1;
    }
    proof {
        assert(chars@.subrange(0, chars@.len() as int) =~= chars@);
    }
}

/// The views of the genre entries.
pub open spec fn genre_views(genres: Seq<String>) -> Seq<Seq<char>> {
    genres.map_values(|g: String| g@)
}

/// Build the text written to the filter process's input for one track.
pub fn filter_input(track: &Track, genres: &Vec<String>) -> (r: Vec<char>)
    ensures
        r@ == filter_input_spec(track@, genre_views(genres@)),
{
    let mut out: Vec<char> = Vec::new();
    push_str_chars(&mut out, track.artist());
    out.push('\n');
    push_str_chars(&mut out, track.title());
    out.push('\n');
    match track.album() {
        Some(a) => push_str_chars(&mut out, a),
        None => {
            proof {
                assert(out@ + album_or_empty(track@.album) =~= out@);
            }
        },
    }
    out.push('\n');
    let ghost head = track@.artist + seq!['\n'] + track@.title + seq!['\n'] + album_or_empty(
        track@.album,
    ) + seq!['\n'];
    proof {
        assert(out@ =~= head);
    }
    let mut i: usize = 0;
    while i < genres.len()
        invariant
            i <= genres@.len(),
            out@ == head + join_comma(genre_views(genres@).subrange(0, i as int)),
        decreases genres@.len() - i,
    {
        if i > 0 {
            out.push(',');
        }
        push_str_chars(&mut out, genres[i].as_str());
        proof {
            let pre = genre_views(genres@).subrange(0, i as int);
            assert(genre_views(genres@).subrange(0, i + 1) =~= pre.push(genres@[i as int]@));
            lemma_join_comma_snoc(pre, genres@[i as int]@);
            if i == 0 {
                assert(out@ =~= head + join_comma(genre_views(genres@).subrange(0, i + 1)));
            } else {
                assert((head + join_comma(pre)).push(',') + genres@[i as int]@ =~= head
                    + (join_comma(pre) + seq![','] + genres@[i as int]@));
            }
        }
        i = i + 1;
    }
    proof {
        assert(genre_views(genres@).subrange(0, genres@.len() as int) =~= genre_views(genres@));
    }
    out.push('\n');
    proof {
        assert(out@ =~= filter_input_spec(track@, genre_views(genres@)));
    }
    out
}

/// The first newline at or after position `i`, or the end of the text.
pub open spec fn find_newline(s: Seq<char>, i: int) -> int
    decreases s.len() - i,
{
    if i < 0 || i >= s.len() {
        s.len() as int
    } else if s[i] == '\n' {
        i
    } else {
        find_newline(s, i + 1)
    }
}

/// The track named by a filter's output, when the output has at least
/// two lines: the first two are artist and title, a third is the album
/// (empty meaning "no album"). Output without any line break names none.
pub open spec fn filter_output_track(s: Seq<char>) -> Option<TrackView> {
    let n1 = find_newline(s, 0);
    if n1 == s.len() {
        None
    } else {
        let n2 = find_newline(s, n1 + 1);
        let album = if n2 == s.len() {
            None
        } else {
            let n3 = find_newline(s, n2 + 1);
            normalize_album(Some(s.subrange(n2 + 1, n3)))
        };
        Some(
            TrackView {
                artist: s.subrange(0, n1),
                title: s.subrange(n1 + 1, n2),
                album,
            },
        )
    }
}

fn find_newline_exec(v: &Vec<char>, i: usize) -> (r: usize)
    requires
        i <= v@.len(),
    ensures
        r == find_newline(v@, i as int),
        i <= r <= v@.len(),
    decreases v@.len() - i,
{
    if i >= v.len() {
        v.len()
    } else if v[i] == '\n' {
        i
    } else {
        find_newline_exec(v, i + 1)
    }
}

/// Read a filter process's output. A rewritten track comes back as
/// [`FilterResult::Filtered`]; output with fewer than two lines yields
/// [`FilterResult::Ignored`], and the caller suppresses the event.
pub fn parse_filter_output(output: &str) -> (r: FilterResult)
    ensures
        match filter_output_track(output@) {
            Some(t) => r matches FilterResult::Filtered(tr) && tr@ == t && tr@.wf(),
            None => r matches FilterResult::Ignored,
        },
{
    let chars = str_to_chars(output);
    let n1 = find_newline_exec(&chars, 0);
    if n1 == chars.len() {
        return FilterResult::Ignored;
    }
    let n2 = find_newline_exec(&chars, n1 + 1);
    let artist = output.substring_char(0, n1);
    let title = output.substring_char(n1 + 1, n2);
    let track = if n2 == chars.len() {
        Track::new(artist, title, None)
    } else {
        let n3 = find_newline_exec(&chars, n2 + 1);
        let album = output.substring_char(n2 + 1, n3);
        Track::new(artist, title, Some(album))
    };
    proof {
        assert(track@ =~~= filter_output_track(output@)->Some_0);
    }
    FilterResult::Filtered(track)
}

/// The track an event is dispatched with, if any: a filtered or
/// unfiltered track goes out, an ignored one suppresses the event for
/// every service.
pub fn event_track(r: &FilterResult) -> (t: Option<&Track>)
    ensures
        match r {
            FilterResult::Filtered(tr) => t matches Some(x) && x@ == tr@,
            FilterResult::NotFiltered(tr) => t matches Some(x) && x@ == tr@,
            FilterResult::Ignored => t is None,
        },
{
    match r {
        FilterResult::Filtered(tr) => Some(tr),
        FilterResult::NotFiltered(tr) => Some(tr),
        FilterResult::Ignored => None,
    }
}

} // verus!

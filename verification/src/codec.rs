//! The cache store format: a tabular text file with the header row
//! `timestamp,artist,title,album` and one record per row. Fields holding
//! a comma, quote or line break are quoted, with quotes doubled, as a
//! tabular-data reader expects. Encoding and decoding are defined as
//! functions on character sequences, and decoding is proved to invert
//! encoding exactly.

use vstd::prelude::*;

use crate::cache::{views_of, CachedScrobble, CachedScrobbleView};
use crate::strings::{chars_to_string, str_to_chars};
use crate::track::{Track, TrackView};

verus! {

/// A field holding one of these characters must be quoted.
pub open spec fn is_special(c: char) -> bool {
    c == ',' || c == '"' || c == '\n' || c == '\r'
}

pub open spec fn field_needs_quoting(s: Seq<char>) -> bool {
    exists|i: int| 0 <= i < s.len() && is_special(s[i])
}

/// The body of a quoted field: every quote doubled.
pub open spec fn escape_field(s: Seq<char>) -> Seq<char>
    decreases s.len(),
{
    if s.len() == 0 {
        Seq::empty()
    } else {
        (if s[0] == '"' {
            seq!['"', '"']
        } else {
            seq![s[0]]
        }) + escape_field(s.drop_first())
    }
}

/// One encoded field: as it stands when harmless, quoted otherwise.
pub open spec fn encode_field_spec(s: Seq<char>) -> Seq<char> {
    if field_needs_quoting(s) {
        seq!['"'] + escape_field(s) + seq!['"']
    } else {
        s
    }
}

pub open spec fn digit_char(d: int) -> char {
    if d == 0 {
        '0'
    } else if d == 1 {
        '1'
    } else if d == 2 {
        '2'
    } else if d == 3 {
        '3'
    } else if d == 4 {
        '4'
    } else if d == 5 {
        '5'
    } else if d == 6 {
        '6'
    } else if d == 7 {
        '7'
    } else if d == 8 {
        '8'
    } else {
        '9'
    }
}

/// The value of a decimal digit character, `-1` for any other character.
pub open spec fn digit_val(c: char) -> int {
    if c == '0' {
        0
    } else if c == '1' {
        1
    } else if c == '2' {
        2
    } else if c == '3' {
        3
    } else if c == '4' {
        4
    } else if c == '5' {
        5
    } else if c == '6' {
        6
    } else if c == '7' {
        7
    } else if c == '8' {
        8
    } else if c == '9' {
        9
    } else {
        -1
    }
}

/// The decimal digits of a number, most significant first.
pub open spec fn digits_of(n: nat) -> Seq<char>
    decreases n,
{
    if n < 10 {
        seq![digit_char(n as int)]
    } else {
        digits_of(n / 10) + seq![digit_char((n % 10) as int)]
    }
}

pub open spec fn album_or_empty(album: Option<Seq<char>>) -> Seq<char> {
    match album {
        Some(a) => a,
        None => Seq::empty(),
    }
}

/// One encoded record row, newline-terminated.
pub open spec fn encode_record_spec(r: CachedScrobbleView) -> Seq<char> {
    digits_of(r.timestamp as nat) + seq![','] + encode_field_spec(r.track.artist) + seq![',']
        + encode_field_spec(r.track.title) + seq![','] + encode_field_spec(
        album_or_empty(r.track.album),
    ) + seq!['\n']
}

pub open spec fn encode_records_spec(rs: Seq<CachedScrobbleView>) -> Seq<char>
    decreases rs.len(),
{
    if rs.len() == 0 {
        Seq::empty()
    } else {
        encode_record_spec(rs[0]) + encode_records_spec(rs.drop_first())
    }
}

/// The header row every store begins with.
pub open spec fn header_chars() -> Seq<char> {
    seq![
        't', 'i', 'm', 'e', 's', 't', 'a', 'm', 'p', ',', 'a', 'r', 't', 'i', 's', 't', ',', 't',
        'i', 't', 'l', 'e', ',', 'a', 'l', 'b', 'u', 'm', '\n',
    ]
}

/// A whole encoded store: the header row, then every record in order.
pub open spec fn encode_file_spec(rs: Seq<CachedScrobbleView>) -> Seq<char> {
    header_chars() + encode_records_spec(rs)
}

/// A quoted field read from position `i` (just past the opening quote):
/// its value and the position just past the closing quote, or nothing
/// when the quote never closes.
pub open spec fn parse_quoted(s: Seq<char>, i: int) -> Option<(Seq<char>, int)>
    decreases s.len() - i,
{
    if i < 0 || i >= s.len() {
        None
    } else if s[i] == '"' {
        if i + 1 < s.len() && s[i + 1] == '"' {
            match parse_quoted(s, i + 2) {
                Some(r) => Some((seq!['"'] + r.0, r.1)),
                None => None,
            }
        } else {
            Some((Seq::empty(), i + 1))
        }
    } else {
        match parse_quoted(s, i + 1) {
            Some(r) => Some((seq![s[i]] + r.0, r.1)),
            None => None,
        }
    }
}

/// An unquoted field read from position `i`: everything up to the next
/// separator, and the separator's position.
pub open spec fn parse_unquoted(s: Seq<char>, i: int) -> (Seq<char>, int)
    decreases s.len() - i,
{
    if i < 0 || i >= s.len() || s[i] == ',' || s[i] == '\n' {
        (Seq::empty(), i)
    } else {
        let r = parse_unquoted(s, i + 1);
        (seq![s[i]] + r.0, r.1)
    }
}

/// One field read from position `i`.
pub open spec fn parse_field(s: Seq<char>, i: int) -> Option<(Seq<char>, int)> {
    if 0 <= i < s.len() && s[i] == '"' {
        parse_quoted(s, i + 1)
    } else {
        Some(parse_unquoted(s, i))
    }
}

pub open spec fn all_digits(s: Seq<char>) -> bool {
    forall|i: int| 0 <= i < s.len() ==> digit_val(#[trigger] s[i]) >= 0
}

/// The number named by a sequence of digits.
pub open spec fn digits_val(s: Seq<char>) -> int
    decreases s.len(),
{
    if s.len() == 0 {
        0
    } else {
        digits_val(s.drop_last()) * 10 + digit_val(s.last())
    }
}

/// A timestamp field: one or more decimal digits naming a value in range.
pub open spec fn parse_timestamp(s: Seq<char>) -> Option<u64> {
    if s.len() > 0 && all_digits(s) && digits_val(s) <= u64::MAX {
        Some(digits_val(s) as u64)
    } else {
        None
    }
}

/// One record row read from position `i`: four comma-separated fields
/// and the terminating newline. An empty album field means "no album".
pub open spec fn parse_record(s: Seq<char>, i: int) -> Option<(CachedScrobbleView, int)> {
    match parse_field(s, i) {
        None => None,
        Some((ts_chars, i1)) => if !(0 <= i1 < s.len() && s[i1] == ',') {
            None
        } else {
            match parse_field(s, i1 + 1) {
                None => None,
                Some((artist, i2)) => if !(0 <= i2 < s.len() && s[i2] == ',') {
                    None
                } else {
                    match parse_field(s, i2 + 1) {
                        None => None,
                        Some((title, i3)) => if !(0 <= i3 < s.len() && s[i3] == ',') {
                            None
                        } else {
                            match parse_field(s, i3 + 1) {
                                None => None,
                                Some((album, i4)) => if !(0 <= i4 < s.len() && s[i4] == '\n') {
                                    None
                                } else {
                                    match parse_timestamp(ts_chars) {
                                        None => None,
                                        Some(ts) => Some(
                                            (
                                                CachedScrobbleView {
                                                    timestamp: ts,
                                                    track: TrackView {
                                                        artist,
                                                        title,
                                                        album: if album.len() == 0 {
                                                            None
                                                        } else {
                                                            Some(album)
                                                        },
                                                    },
                                                },
                                                i4 + 1,
                                            ),
                                        ),
                                    }
                                },
                            }
                        },
                    }
                },
            }
        },
    }
}

/// Every record row from position `i` to the end of the store.
pub open spec fn parse_records(s: Seq<char>, i: int) -> Option<Seq<CachedScrobbleView>>
    decreases s.len() - i,
{
    if i == s.len() {
        Some(Seq::empty())
    } else if i < 0 || i > s.len() {
        None
    } else {
        match parse_record(s, i) {
            None => None,
            Some((r, j)) => if j <= i || j > s.len() {
                None
            } else {
                match parse_records(s, j) {
                    None => None,
                    Some(rest) => Some(seq![r] + rest),
                }
            },
        }
    }
}

/// A whole store: the header row, then every record to the end.
pub open spec fn parse_file_spec(s: Seq<char>) -> Option<Seq<CachedScrobbleView>> {
    if s.len() >= header_chars().len() && s.subrange(0, header_chars().len() as int)
        == header_chars() {
        parse_records(s, header_chars().len() as int)
    } else {
        None
    }
}

proof fn lemma_parse_unquoted_clean(s: Seq<char>, i: int, v: Seq<char>)
    requires
        0 <= i,
        i + v.len() < s.len(),
        forall|k: int| 0 <= k < v.len() ==> s[i + k] == #[trigger] v[k],
        forall|k: int| 0 <= k < v.len() ==> !is_special(#[trigger] v[k]),
        s[i + v.len()] == ',' || s[i + v.len()] == '\n',
    ensures
        parse_unquoted(s, i) == (v, i + v.len() as int),
    decreases v.len(),
{
    if v.len() == 0 {
        assert(v =~= Seq::<char>::empty());
    } else {
        assert(s[i] == v[0]);
        assert(!is_special(v[0]));
        let w = v.drop_first();
        assert(forall|k: int| 0 <= k < w.len() ==> s[i + 1 + k] == #[trigger] w[k]);
        lemma_parse_unquoted_clean(s, i + 1, w);
        assert(seq![s[i]] + w =~= v);
    }
}

proof fn lemma_parse_quoted_escaped(s: Seq<char>, i: int, v: Seq<char>)
    requires
        0 <= i,
        i + escape_field(v).len() < s.len(),
        forall|k: int| 0 <= k < escape_field(v).len() ==> s[i + k] == #[trigger] escape_field(v)[k],
        s[i + escape_field(v).len()] == '"',
        i + escape_field(v).len() + 1 == s.len() || s[i + escape_field(v).len() + 1] != '"',
    ensures
        parse_quoted(s, i) == Some((v, i + escape_field(v).len() + 1)),
    decreases v.len(),
{
    let e = escape_field(v);
    if v.len() == 0 {
        assert(e =~= Seq::<char>::empty());
        assert(s[i] == '"');
        assert(v =~= Seq::<char>::empty());
    } else {
        let w = v.drop_first();
        let ew = escape_field(w);
        if v[0] == '"' {
            assert(e =~= seq!['"', '"'] + ew);
            assert(s[i] == e[0]);
            assert(s[i + 1] == e[1]);
            assert(forall|k: int| 0 <= k < ew.len() ==> s[i + 2 + k] == #[trigger] ew[k]) by {
                assert(forall|k: int| 0 <= k < ew.len() ==> (seq!['"', '"'] + ew)[k + 2]
                    == #[trigger] ew[k]);
            }
            assert(s[i + 2 + ew.len()] == '"');
            lemma_parse_quoted_escaped(s, i + 2, w);
            assert(seq!['"'] + w =~= v);
        } else {
            assert(e =~= seq![v[0]] + ew);
            assert(s[i] == e[0]);
            assert(e[0] == v[0]);
            assert(forall|k: int| 0 <= k < ew.len() ==> s[i + 1 + k] == #[trigger] ew[k]) by {
                assert(forall|k: int| 0 <= k < ew.len() ==> (seq![v[0]] + ew)[k + 1]
                    == #[trigger] ew[k]);
            }
            assert(s[i + 1 + ew.len()] == '"');
            lemma_parse_quoted_escaped(s, i + 1, w);
            assert(seq![s[i]] + w =~= v);
        }
    }
}

proof fn lemma_parse_field_encoded(s: Seq<char>, i: int, v: Seq<char>)
    requires
        0 <= i,
        i + encode_field_spec(v).len() < s.len(),
        forall|k: int|
            0 <= k < encode_field_spec(v).len() ==> s[i + k] == #[trigger] encode_field_spec(v)[k],
        s[i + encode_field_spec(v).len()] == ',' || s[i + encode_field_spec(v).len()] == '\n',
    ensures
        parse_field(s, i) == Some((v, i + encode_field_spec(v).len() as int)),
{
    let e = encode_field_spec(v);
    if field_needs_quoting(v) {
        let ev = escape_field(v);
        assert(e =~= seq!['"'] + ev + seq!['"']);
        assert(s[i] == e[0]);
        assert(e[0] == '"');
        assert(forall|k: int| 0 <= k < ev.len() ==> s[i + 1 + k] == #[trigger] ev[k]) by {
            assert(forall|k: int| 0 <= k < ev.len() ==> (seq!['"'] + ev + seq!['"'])[k + 1]
                == #[trigger] ev[k]);
        }
        assert(s[i + 1 + ev.len()] == '"') by {
            assert(e[1 + ev.len() as int] == '"');
        }
        assert(s[i + 1 + ev.len() + 1] != '"');
        lemma_parse_quoted_escaped(s, i + 1, v);
    } else {
        assert(e == v);
        assert(forall|k: int| 0 <= k < v.len() ==> !is_special(#[trigger] v[k])) by {
            assert forall|k: int| 0 <= k < v.len() implies !is_special(#[trigger] v[k]) by {
                if is_special(v[k]) {
                    assert(field_needs_quoting(v));
                }
            }
        }
        if v.len() == 0 {
            assert(parse_field(s, i) == Some(parse_unquoted(s, i)));
        } else {
            assert(s[i] == v[0]);
            assert(v[0] != '"');
        }
        lemma_parse_unquoted_clean(s, i, v);
    }
}

proof fn lemma_digits_of_props(n: nat)
    ensures
        digits_of(n).len() >= 1,
        all_digits(digits_of(n)),
        digits_val(digits_of(n)) == n,
        forall|k: int| 0 <= k < digits_of(n).len() ==> !is_special(#[trigger] digits_of(n)[k]),
        forall|k: int| 0 <= k < digits_of(n).len() ==> digits_of(n)[k] != '"',
    decreases n,
{
    if n < 10 {
        let d = digits_of(n);
        assert(d == seq![digit_char(n as int)]);
        assert(d.drop_last() =~= Seq::<char>::empty());
        assert(digits_val(d) == digits_val(d.drop_last()) * 10 + digit_val(d.last()));
        assert(digit_val(digit_char(n as int)) == n);
    } else {
        lemma_digits_of_props(n / 10);
        let p = digits_of(n / 10);
        let c = digit_char((n % 10) as int);
        let d = digits_of(n);
        assert(d == p + seq![c]);
        assert(d.drop_last() =~= p);
        assert(d.last() == c);
        assert(digit_val(c) == n % 10);
        assert(digits_val(d) == digits_val(p) * 10 + digit_val(c));
        assert(digits_val(d) == (n / 10) * 10 + n % 10);
        assert((n / 10) * 10 + n % 10 == n) by (nonlinear_arith);
        assert(forall|k: int| 0 <= k < d.len() ==> digit_val(#[trigger] d[k]) >= 0) by {
            assert(forall|k: int| 0 <= k < p.len() ==> digit_val(#[trigger] p[k]) >= 0);
        }
    }
}

/// Each piece of lemma bookkeeping below reads one encoded field out of
/// an encoded record standing at position `i` of the store.
proof fn lemma_parse_record_encoded(s: Seq<char>, i: int, r: CachedScrobbleView)
    requires
        0 <= i,
        r.track.wf(),
        i + encode_record_spec(r).len() <= s.len(),
        forall|k: int|
            0 <= k < encode_record_spec(r).len() ==> s[i + k] == #[trigger] encode_record_spec(
                r,
            )[k],
    ensures
        parse_record(s, i) == Some((r, i + encode_record_spec(r).len() as int)),
{
    let e = encode_record_spec(r);
    let t = digits_of(r.timestamp as nat);
    let fa = encode_field_spec(r.track.artist);
    let ft = encode_field_spec(r.track.title);
    let fl = encode_field_spec(album_or_empty(r.track.album));
    let o1 = i + t.len();
    let o2 = o1 + 1 + fa.len();
    let o3 = o2 + 1 + ft.len();
    let o4 = o3 + 1 + fl.len();
    lemma_digits_of_props(r.timestamp as nat);
    assert(e =~= t + seq![','] + fa + seq![','] + ft + seq![','] + fl + seq!['\n']);
    assert(e.len() == t.len() + 1 + fa.len() + 1 + ft.len() + 1 + fl.len() + 1);

    // the timestamp digits form a clean unquoted field ending at the comma
    assert(encode_field_spec(t) == t) by {
        if field_needs_quoting(t) {
            let k = choose|k: int| 0 <= k < t.len() && is_special(t[k]);
            assert(!is_special(t[k]));
        }
    }
    assert(forall|k: int| 0 <= k < t.len() ==> s[i + k] == #[trigger] t[k]) by {
        assert(forall|k: int| 0 <= k < t.len() ==> e[k] == #[trigger] t[k]);
    }
    assert(s[o1] == ',') by {
        assert(e[t.len() as int] == ',');
    }
    lemma_parse_field_encoded(s, i, t);
    assert(parse_field(s, i) == Some((t, o1)));

    assert(forall|k: int| 0 <= k < fa.len() ==> s[o1 + 1 + k] == #[trigger] fa[k]) by {
        assert(forall|k: int| 0 <= k < fa.len() ==> e[t.len() as int + 1 + k] == #[trigger] fa[k]);
    }
    assert(s[o2] == ',') by {
        assert(e[o2 - i] == ',');
    }
    lemma_parse_field_encoded(s, o1 + 1, r.track.artist);
    assert(parse_field(s, o1 + 1) == Some((r.track.artist, o2)));

    assert(forall|k: int| 0 <= k < ft.len() ==> s[o2 + 1 + k] == #[trigger] ft[k]) by {
        assert(forall|k: int|
            0 <= k < ft.len() ==> e[t.len() as int + 1 + fa.len() as int + 1 + k] == #[trigger] ft[k]);
    }
    assert(s[o3] == ',') by {
        assert(e[o3 - i] == ',');
    }
    lemma_parse_field_encoded(s, o2 + 1, r.track.title);
    assert(parse_field(s, o2 + 1) == Some((r.track.title, o3)));

    assert(forall|k: int| 0 <= k < fl.len() ==> s[o3 + 1 + k] == #[trigger] fl[k]) by {
        assert(forall|k: int|
            0 <= k < fl.len() ==> e[t.len() as int + 1 + fa.len() as int + 1 + ft.len() as int + 1 + k]
                == #[trigger] fl[k]);
    }
    assert(s[o4] == '\n') by {
        assert(e[o4 - i] == '\n');
    }
    lemma_parse_field_encoded(s, o3 + 1, album_or_empty(r.track.album));
    assert(parse_field(s, o3 + 1) == Some((album_or_empty(r.track.album), o4)));

    assert(parse_timestamp(t) == Some(r.timestamp));
    let parsed_album = if album_or_empty(r.track.album).len() == 0 {
        None
    } else {
        Some(album_or_empty(r.track.album))
    };
    assert(parsed_album == r.track.album);
    assert((CachedScrobbleView {
        timestamp: r.timestamp,
        track: TrackView { artist: r.track.artist, title: r.track.title, album: parsed_album },
    }) =~~= r);
}

proof fn lemma_parse_records_encoded(s: Seq<char>, i: int, rs: Seq<CachedScrobbleView>)
    requires
        0 <= i,
        i + encode_records_spec(rs).len() == s.len(),
        forall|k: int|
            0 <= k < encode_records_spec(rs).len() ==> s[i + k] == #[trigger] encode_records_spec(
                rs,
            )[k],
        forall|k: int| 0 <= k < rs.len() ==> (#[trigger] rs[k]).track.wf(),
    ensures
        parse_records(s, i) == Some(rs),
    decreases rs.len(),
{
    if rs.len() == 0 {
        assert(rs =~= Seq::<CachedScrobbleView>::empty());
    } else {
        let e0 = encode_record_spec(rs[0]);
        let e = encode_records_spec(rs);
        let rest = encode_records_spec(rs.drop_first());
        assert(e =~= e0 + rest);
        assert(e0.len() >= 1);
        assert(forall|k: int| 0 <= k < e0.len() ==> s[i + k] == #[trigger] e0[k]) by {
            assert(forall|k: int| 0 <= k < e0.len() ==> e[k] == #[trigger] e0[k]);
        }
        lemma_parse_record_encoded(s, i, rs[0]);
        let j = i + e0.len();
        assert(forall|k: int| 0 <= k < rest.len() ==> s[j + k] == #[trigger] rest[k]) by {
            assert(forall|k: int| 0 <= k < rest.len() ==> e[e0.len() as int + k] == #[trigger] rest[k]);
        }
        lemma_parse_records_encoded(s, j, rs.drop_first());
        assert(seq![rs[0]] + rs.drop_first() =~= rs);
    }
}

proof fn lemma_escape_field_snoc(x: Seq<char>, c: char)
    ensures
        escape_field(x.push(c)) == escape_field(x) + (if c == '"' {
            seq!['"', '"']
        } else {
            seq![c]
        }),
    decreases x.len(),
{
    let enc_c: Seq<char> = if c == '"' {
        seq!['"', '"']
    } else {
        seq![c]
    };
    if x.len() == 0 {
        assert(x =~= Seq::<char>::empty());
        assert(x.push(c).drop_first() =~= Seq::<char>::empty());
        assert(x.push(c)[0] == c);
        assert(escape_field(Seq::<char>::empty()) == Seq::<char>::empty());
        assert(escape_field(x.push(c)) == enc_c + Seq::<char>::empty());
        assert(enc_c + Seq::<char>::empty() =~= Seq::<char>::empty() + enc_c);
    } else {
        assert(x.push(c).drop_first() =~= x.drop_first().push(c));
        assert(x.push(c)[0] == x[0]);
        lemma_escape_field_snoc(x.drop_first(), c);
        let enc_0: Seq<char> = if x[0] == '"' {
            seq!['"', '"']
        } else {
            seq![x[0]]
        };
        assert(escape_field(x.push(c)) == enc_0 + escape_field(x.drop_first().push(c)));
        assert(enc_0 + (escape_field(x.drop_first()) + enc_c) =~= (enc_0 + escape_field(
            x.drop_first(),
        )) + enc_c);
    }
}

proof fn lemma_encode_records_snoc(rs: Seq<CachedScrobbleView>, r: CachedScrobbleView)
    ensures
        encode_records_spec(rs.push(r)) == encode_records_spec(rs) + encode_record_spec(r),
    decreases rs.len(),
{
    if rs.len() == 0 {
        assert(rs =~= Seq::<CachedScrobbleView>::empty());
        assert(rs.push(r).drop_first() =~= Seq::<CachedScrobbleView>::empty());
        assert(rs.push(r)[0] == r);
        assert(encode_records_spec(Seq::<CachedScrobbleView>::empty()) == Seq::<char>::empty());
        assert(encode_records_spec(rs.push(r)) == encode_record_spec(r) + Seq::<char>::empty());
        assert(encode_record_spec(r) + Seq::<char>::empty() =~= Seq::<char>::empty()
            + encode_record_spec(r));
    } else {
        assert(rs.push(r).drop_first() =~= rs.drop_first().push(r));
        assert(rs.push(r)[0] == rs[0]);
        lemma_encode_records_snoc(rs.drop_first(), r);
        assert(encode_record_spec(rs[0]) + (encode_records_spec(rs.drop_first())
            + encode_record_spec(r)) =~= (encode_record_spec(rs[0]) + encode_records_spec(
            rs.drop_first(),
        )) + encode_record_spec(r));
    }
}

fn field_needs_quoting_exec(v: &Vec<char>) -> (r: bool)
    ensures
        r == field_needs_quoting(v@),
{
    let mut i: usize = 0;
    while i < v.len()
        invariant
            i <= v@.len(),
            forall|k: int| 0 <= k < i ==> !is_special(#[trigger] v@[k]),
        decreases v@.len() - i,
    {
        let c = v[i];
        if c == ',' || c == '"' || c == '\n' || c == '\r' {
            return true;
        }
        i = i + 1;
    }
    false
}

/// Append one encoded field to the output.
fn encode_field_into(s: &str, out: &mut Vec<char>)
    ensures
        final(out)@ == old(out)@ + encode_field_spec(s@),
{
    let chars = str_to_chars(s);
    let ghost base = out@;
    if !field_needs_quoting_exec(&chars) {
        let mut i: usize = 0;
        while i < chars.len()
            invariant
                i <= chars@.len(),
                chars@ == s@,
                out@ == base + chars@.subrange(0, i as int),
            decreases chars@.len() - i,
        {
            out.push(chars[i]);
            proof {
                assert(chars@.subrange(0, i + 1) =~= chars@.subrange(0, i as int).push(
                    chars@[i as int],
                ));
                assert(base + chars@.subrange(0, i as int).push(chars@[i as int]) =~= (base
                    + chars@.subrange(0, i as int)).push(chars@[i as int]));
            }
            i = i + 1;
        }
        proof {
            assert(chars@.subrange(0, chars@.len() as int) =~= chars@);
        }
    } else {
        out.push('"');
        let mut i: usize = 0;
        while i < chars.len()
            invariant
                i <= chars@.len(),
                chars@ == s@,
                field_needs_quoting(s@),
                out@ == base + seq!['"'] + escape_field(chars@.subrange(0, i as int)),
            decreases chars@.len() - i,
        {
            let c = chars[i];
            proof {
                assert(chars@.subrange(0, i + 1) =~= chars@.subrange(0, i as int).push(
                    chars@[i as int],
                ));
                lemma_escape_field_snoc(chars@.subrange(0, i as int), chars@[i as int]);
            }
            if c == '"' {
                out.push('"');
                out.push('"');
                proof {
                    assert((base + seq!['"'] + escape_field(chars@.subrange(0, i as int))).push(
                        '"',
                    ).push('"') =~= base + seq!['"'] + escape_field(chars@.subrange(0, i + 1)));
                }
            } else {
                out.push(c);
                proof {
                    assert((base + seq!['"'] + escape_field(chars@.subrange(0, i as int))).push(c)
                        =~= base + seq!['"'] + escape_field(chars@.subrange(0, i + 1)));
                }
            }
            i = i + 1;
        }
        out.push('"');
        proof {
            assert(chars@.subrange(0, chars@.len() as int) =~= chars@);
            assert((base + seq!['"'] + escape_field(s@)).push('"') =~= base + (seq!['"']
                + escape_field(s@) + seq!['"']));
        }
    }
}

fn digit_char_exec(d: u64) -> (c: char)
    requires
        d < 10,
    ensures
        c == digit_char(d as int),
{
    match d {
        0 => '0',
        1 => '1',
        2 => '2',
        3 => '3',
        4 => '4',
        5 => '5',
        6 => '6',
        7 => '7',
        8 => '8',
        _ => '9',
    }
}

/// Append the decimal digits of `n` to the output.
fn push_digits(n: u64, out: &mut Vec<char>)
    ensures
        final(out)@ == old(out)@ + digits_of(n as nat),
    decreases n,
{
    if n < 10 {
        out.push(digit_char_exec(n));
        proof {
            assert(old(out)@.push(digit_char(n as int)) =~= old(out)@ + digits_of(n as nat));
        }
    } else {
        push_digits(n / 10, out);
        out.push(digit_char_exec(n % 10));
        proof {
            assert((old(out)@ + digits_of((n / 10) as nat)).push(digit_char((n % 10) as int)) =~= old(
                out,
            )@ + (digits_of((n / 10) as nat) + seq![digit_char((n % 10) as int)]));
        }
    }
}

/// Append one encoded record row to the output.
fn encode_record_into(r: &CachedScrobble, out: &mut Vec<char>)
    ensures
        final(out)@ == old(out)@ + encode_record_spec(r@),
{
    let ghost base = out@;
    push_digits(r.timestamp(), out);
    out.push(',');
    encode_field_into(r.track().artist(), out);
    out.push(',');
    encode_field_into(r.track().title(), out);
    out.push(',');
    match r.track().album() {
        Some(a) => encode_field_into(a, out),
        None => {
            proof {
                assert(escape_field(Seq::<char>::empty()) =~= Seq::<char>::empty());
                assert(encode_field_spec(album_or_empty(r@.track.album)) =~= Seq::<char>::empty());
                assert(out@ + Seq::<char>::empty() =~= out@);
            }
        },
    }
    out.push('\n');
    proof {
        let t = digits_of(r@.timestamp as nat);
        let fa = encode_field_spec(r@.track.artist);
        let ft = encode_field_spec(r@.track.title);
        let fl = encode_field_spec(album_or_empty(r@.track.album));
        assert(out@ =~= base + (t + seq![','] + fa + seq![','] + ft + seq![','] + fl + seq!['\n']));
    }
}

/// The header row as characters.
fn header_vec() -> (r: Vec<char>)
    ensures
        r@ == header_chars(),
{
    proof {
        reveal_strlit("timestamp,artist,title,album\n");
    }
    let v = str_to_chars("timestamp,artist,title,album\n");
    proof {
        assert(v@ =~= header_chars());
    }
    v
}

/// Encode a whole cache store: the header row, then every record.
pub fn encode_records(records: &Vec<CachedScrobble>) -> (r: String)
    ensures
        r@ == encode_file_spec(views_of(records@)),
{
    let mut out = header_vec();
    let mut i: usize = 0;
    while i < records.len()
        invariant
            i <= records@.len(),
            out@ == header_chars() + encode_records_spec(views_of(records@).subrange(0, i as int)),
        decreases records@.len() - i,
    {
        let ghost pre = views_of(records@).subrange(0, i as int);
        encode_record_into(&records[i], &mut out);
        proof {
            assert(views_of(records@).subrange(0, i + 1) =~= pre.push(records@[i as int]@));
            lemma_encode_records_snoc(pre, records@[i as int]@);
            assert((header_chars() + encode_records_spec(pre)) + encode_record_spec(
                records@[i as int]@,
            ) =~= header_chars() + (encode_records_spec(pre) + encode_record_spec(
                records@[i as int]@,
            )));
        }
        i = i + 1;
    }
    proof {
        assert(views_of(records@).subrange(0, records@.len() as int) =~= views_of(records@));
    }
    chars_to_string(&out)
}

/// Encode a single record row, as appended to an existing store when a
/// live scrobble fails.
pub fn encode_record(record: &CachedScrobble) -> (r: String)
    ensures
        r@ == encode_record_spec(record@),
{
    let mut out: Vec<char> = Vec::new();
    encode_record_into(record, &mut out);
    proof {
        assert(out@ =~= encode_record_spec(record@));
    }
    chars_to_string(&out)
}

fn parse_quoted_exec(s: &Vec<char>, i: usize) -> (r: Option<(Vec<char>, usize)>)
    ensures
        match r {
            Some(p) => parse_quoted(s@, i as int) == Some((p.0@, p.1 as int)) && i < p.1
                <= s@.len(),
            None => parse_quoted(s@, i as int) is None,
        },
    decreases s@.len() - i,
{
    if i >= s.len() {
        return None;
    }
    let c = s[i];
    if c == '"' {
        let next_is_quote = if i + 1 < s.len() {
            s[i + 1] == '"'
        } else {
            false
        };
        if next_is_quote {
            match parse_quoted_exec(s, i + 2) {
                Some((mut v, j)) => {
                    v.insert(0, '"');
                    proof {
                        assert(v@ =~= seq!['"'] + v@.drop_first());
                    }
                    Some((v, j))
                },
                None => None,
            }
        } else {
            Some((Vec::new(), i + 1))
        }
    } else {
        match parse_quoted_exec(s, i + 1) {
            Some((mut v, j)) => {
                v.insert(0, c);
                proof {
                    assert(v@ =~= seq![s@[i as int]] + v@.drop_first());
                }
                Some((v, j))
            },
            None => None,
        }
    }
}

fn parse_unquoted_exec(s: &Vec<char>, i: usize) -> (r: (Vec<char>, usize))
    requires
        i <= s@.len(),
    ensures
        parse_unquoted(s@, i as int) == (r.0@, r.1 as int),
        i <= r.1 <= s@.len(),
    decreases s@.len() - i,
{
    if i >= s.len() {
        return (Vec::new(), i);
    }
    let c = s[i];
    if c == ',' || c == '\n' {
        (Vec::new(), i)
    } else {
        let (mut v, j) = parse_unquoted_exec(s, i + 1);
        v.insert(0, c);
        proof {
            assert(v@ =~= seq![s@[i as int]] + v@.drop_first());
        }
        (v, j)
    }
}

fn parse_field_exec(s: &Vec<char>, i: usize) -> (r: Option<(Vec<char>, usize)>)
    requires
        i <= s@.len(),
    ensures
        match r {
            Some(p) => parse_field(s@, i as int) == Some((p.0@, p.1 as int)) && i <= p.1
                <= s@.len(),
            None => parse_field(s@, i as int) is None,
        },
{
    if i < s.len() && s[i] == '"' {
        parse_quoted_exec(s, i + 1)
    } else {
        Some(parse_unquoted_exec(s, i))
    }
}

fn digit_val_exec(c: char) -> (r: Option<u64>)
    ensures
        match r {
            Some(d) => digit_val(c) == d && d < 10,
            None => digit_val(c) < 0,
        },
{
    match c {
        '0' => Some(0),
        '1' => Some(1),
        '2' => Some(2),
        '3' => Some(3),
        '4' => Some(4),
        '5' => Some(5),
        '6' => Some(6),
        '7' => Some(7),
        '8' => Some(8),
        '9' => Some(9),
        _ => None,
    }
}

proof fn lemma_digits_val_nonneg(s: Seq<char>)
    requires
        all_digits(s),
    ensures
        digits_val(s) >= 0,
    decreases s.len(),
{
    if s.len() > 0 {
        assert(all_digits(s.drop_last())) by {
            assert(forall|k: int| 0 <= k < s.len() - 1 ==> s.drop_last()[k] == #[trigger] s[k]);
        }
        lemma_digits_val_nonneg(s.drop_last());
    }
}

proof fn lemma_digits_val_prefix(s: Seq<char>, i: int)
    requires
        all_digits(s),
        0 <= i <= s.len(),
    ensures
        digits_val(s.subrange(0, i)) <= digits_val(s),
    decreases s.len() - i,
{
    if i == s.len() {
        assert(s.subrange(0, i) =~= s);
    } else {
        let p = s.subrange(0, i);
        let q = s.subrange(0, i + 1);
        assert(q.drop_last() =~= p);
        assert(q.last() == s[i]);
        assert(all_digits(p)) by {
            assert(forall|k: int| 0 <= k < i ==> p[k] == #[trigger] s[k]);
        }
        lemma_digits_val_nonneg(p);
        assert(digits_val(q) == digits_val(p) * 10 + digit_val(s[i]));
        assert(digits_val(p) * 10 >= digits_val(p)) by (nonlinear_arith)
            requires
                digits_val(p) >= 0,
        ;
        lemma_digits_val_prefix(s, i + 1);
    }
}

fn parse_timestamp_exec(v: &Vec<char>) -> (r: Option<u64>)
    ensures
        r == parse_timestamp(v@),
{
    if v.len() == 0 {
        return None;
    }
    let mut val: u64 = 0;
    let mut i: usize = 0;
    while i < v.len()
        invariant
            i <= v@.len(),
            all_digits(v@.subrange(0, i as int)),
            val == digits_val(v@.subrange(0, i as int)),
        decreases v@.len() - i,
    {
        proof {
            assert(v@.subrange(0, i + 1).drop_last() =~= v@.subrange(0, i as int));
        }
        match digit_val_exec(v[i]) {
            None => {
                proof {
                    assert(digit_val(v@[i as int]) < 0);
                    assert(!all_digits(v@));
                }
                return None;
            },
            Some(d) => {
                if val > (u64::MAX - d) / 10 {
                    proof {
                        assert(digits_val(v@.subrange(0, i + 1)) > u64::MAX) by (nonlinear_arith)
                            requires
                                digits_val(v@.subrange(0, i + 1)) == val * 10 + d,
                                val > (u64::MAX - d) / 10,
                                d < 10,
                                val >= 0,
                        ;
                        if all_digits(v@) {
                            lemma_digits_val_prefix(v@, i + 1);
                        }
                    }
                    return None;
                }
                proof {
                    assert(val * 10 + d <= u64::MAX) by (nonlinear_arith)
                        requires
                            val <= (u64::MAX - d) / 10,
                            d < 10,
                            val >= 0,
                    ;
                }
                val = val * 10 + d;
            },
        }
        i = i + 1;
    }
    proof {
        assert(v@.subrange(0, v@.len() as int) =~= v@);
    }
    Some(val)
}

fn parse_record_exec(s: &Vec<char>, i: usize) -> (r: Option<(CachedScrobble, usize)>)
    requires
        i <= s@.len(),
    ensures
        match r {
            Some(p) => parse_record(s@, i as int) == Some((p.0@, p.1 as int)) && i < p.1 <= s@.len()
                && p.0@.track.wf(),
            None => parse_record(s@, i as int) is None,
        },
{
    let (ts_chars, i1) = match parse_field_exec(s, i) {
        Some(p) => p,
        None => {
            return None;
        },
    };
    if !(i1 < s.len() && s[i1] == ',') {
        return None;
    }
    let (artist, i2) = match parse_field_exec(s, i1 + 1) {
        Some(p) => p,
        None => {
            return None;
        },
    };
    if !(i2 < s.len() && s[i2] == ',') {
        return None;
    }
    let (title, i3) = match parse_field_exec(s, i2 + 1) {
        Some(p) => p,
        None => {
            return None;
        },
    };
    if !(i3 < s.len() && s[i3] == ',') {
        return None;
    }
    let (album, i4) = match parse_field_exec(s, i3 + 1) {
        Some(p) => p,
        None => {
            return None;
        },
    };
    if !(i4 < s.len() && s[i4] == '\n') {
        return None;
    }
    let ts = match parse_timestamp_exec(&ts_chars) {
        Some(ts) => ts,
        None => {
            return None;
        },
    };
    let artist_s = chars_to_string(&artist);
    let title_s = chars_to_string(&title);
    let album_s = chars_to_string(&album);
    let track = if album_s.as_str().is_empty() {
        Track::new(artist_s.as_str(), title_s.as_str(), None)
    } else {
        Track::new(artist_s.as_str(), title_s.as_str(), Some(album_s.as_str()))
    };
    let rec = CachedScrobble::new(ts, track);
    proof {
        let spec_rec = parse_record(s@, i as int)->Some_0.0;
        assert(rec@ =~~= spec_rec);
    }
    Some((rec, i4 + 1))
}

fn parse_records_exec(s: &Vec<char>, i: usize) -> (r: Option<Vec<CachedScrobble>>)
    requires
        i <= s@.len(),
    ensures
        match r {
            Some(v) => parse_records(s@, i as int) == Some(views_of(v@)) && forall|k: int|
                0 <= k < v@.len() ==> (#[trigger] v@[k]@).track.wf(),
            None => parse_records(s@, i as int) is None,
        },
    decreases s@.len() - i,
{
    if i == s.len() {
        let empty: Vec<CachedScrobble> = Vec::new();
        proof {
            assert(views_of(empty@) =~= Seq::<CachedScrobbleView>::empty());
        }
        return Some(empty);
    }
    let (rec, j) = match parse_record_exec(s, i) {
        Some(p) => p,
        None => {
            return None;
        },
    };
    let mut rest = match parse_records_exec(s, j) {
        Some(v) => v,
        None => {
            return None;
        },
    };
    let mut out: Vec<CachedScrobble> = Vec::new();
    out.push(rec);
    let ghost rest_pre = rest@;
    out.append(&mut rest);
    proof {
        assert(out@ =~= seq![rec] + rest_pre);
        assert(views_of(out@) =~= seq![rec@] + views_of(rest_pre));
    }
    Some(out)
}

/// Decode a whole cache store. `None` exactly when the text is not a
/// well-formed store: a missing or different header row, an unterminated
/// quote, a malformed or out-of-range timestamp, or a row without its
/// four fields.
pub fn decode_records(s: &str) -> (r: Option<Vec<CachedScrobble>>)
    ensures
        match r {
            Some(v) => parse_file_spec(s@) == Some(views_of(v@)) && forall|k: int|
                0 <= k < v@.len() ==> (#[trigger] v@[k]@).track.wf(),
            None => parse_file_spec(s@) is None,
        },
{
    let chars = str_to_chars(s);
    let header = header_vec();
    if chars.len() < header.len() {
        return None;
    }
    let mut k: usize = 0;
    while k < header.len()
        invariant
            k <= header@.len(),
            header@ == header_chars(),
            chars@ == s@,
            chars@.len() >= header@.len(),
            forall|m: int| 0 <= m < k ==> chars@[m] == #[trigger] header@[m],
        decreases header@.len() - k,
    {
        if chars[k] != header[k] {
            proof {
                assert(s@.subrange(0, header_chars().len() as int)[k as int] != header_chars()[k as int]);
            }
            return None;
        }
        k = k + 1;
    }
    proof {
        assert(s@.subrange(0, header_chars().len() as int) =~= header_chars());
    }
    parse_records_exec(&chars, header.len())
}

/// Round trip of the cache store: decoding an encoded store yields back
/// exactly the records that were written, however many there are and in
/// the same order.
pub proof fn lemma_cache_round_trip(rs: Seq<CachedScrobbleView>)
    requires
        forall|k: int| 0 <= k < rs.len() ==> (#[trigger] rs[k]).track.wf(),
    ensures
        parse_file_spec(encode_file_spec(rs)) == Some(rs),
{
    let s = encode_file_spec(rs);
    let h = header_chars().len() as int;
    assert(s.subrange(0, h) =~= header_chars());
    assert(forall|k: int|
        0 <= k < encode_records_spec(rs).len() ==> s[h + k] == #[trigger] encode_records_spec(
            rs,
        )[k]);
    lemma_parse_records_encoded(s, h, rs);
}

} // verus!

//! Whitelist matching for players: whether the player the session bus
//! reports may be tracked, by its display identity or by the unique part
//! of its bus name. Querying the bus itself is the embedding program's
//! job; it hands the identity and bus name over as text.

use vstd::prelude::*;

use crate::config::Config;
use crate::strings::str_to_chars;

verus! {

/// The namespace every player's bus name starts with.
pub open spec fn bus_prefix() -> Seq<char> {
    seq![
        'o', 'r', 'g', '.', 'm', 'p', 'r', 'i', 's', '.', 'M', 'e', 'd', 'i', 'a', 'P', 'l', 'a',
        'y', 'e', 'r', '2', '.',
    ]
}

/// The bus name with every leading repetition of the namespace removed.
pub open spec fn strip_bus_prefix(s: Seq<char>) -> Seq<char>
    decreases s.len(),
{
    if s.len() >= bus_prefix().len() && s.subrange(0, bus_prefix().len() as int) == bus_prefix() {
        strip_bus_prefix(s.skip(bus_prefix().len() as int))
    } else {
        s
    }
}

/// The position of the last `.` in the text, `-1` when there is none.
pub open spec fn last_dot(s: Seq<char>) -> int
    decreases s.len(),
{
    if s.len() == 0 {
        -1
    } else if s[s.len() - 1] == '.' {
        s.len() - 1
    } else {
        last_dot(s.drop_last())
    }
}

/// The name with a trailing `.instance…` part removed: everything before
/// the last dot, or the name itself when it has no dot.
pub open spec fn without_instance(s: Seq<char>) -> Seq<char> {
    if last_dot(s) >= 0 {
        s.subrange(0, last_dot(s))
    } else {
        s
    }
}

/// Whether some whitelist entry is exactly this name.
pub open spec fn in_whitelist(wl: Seq<String>, name: Seq<char>) -> bool {
    exists|i: int| 0 <= i < wl.len() && wl[i]@ == name
}

/// Whether the unique part of a bus name is whitelisted, either as it
/// stands or with its instance part stripped off.
pub open spec fn bus_name_whitelisted(bus: Seq<char>, wl: Seq<String>) -> bool {
    let unique = strip_bus_prefix(bus);
    in_whitelist(wl, unique) || in_whitelist(wl, without_instance(unique))
}

/// Whether a player may be tracked: always, when no whitelist is
/// configured or it is empty; otherwise only when its identity or its
/// bus name matches an entry.
pub open spec fn whitelisted(identity: Seq<char>, bus: Seq<char>, wl: Option<Seq<String>>) -> bool {
    match wl {
        None => true,
        Some(w) => if w.len() == 0 {
            true
        } else {
            in_whitelist(w, identity) || bus_name_whitelisted(bus, w)
        },
    }
}

fn chars_eq(a: &Vec<char>, b: &Vec<char>) -> (r: bool)
    ensures
        r == (a@ == b@),
{
    if a.len() != b.len() {
        return false;
    }
    let mut i: usize = 0;
    while i < a.len()
        invariant
            i <= a@.len(),
            a@.len() == b@.len(),
            forall|k: int| 0 <= k < i ==> a@[k] == #[trigger] b@[k],
        decreases a@.len() - i,
    {
        if a[i] != b[i] {
            return false;
        }
        i = i + 1;
    }
    proof {
        assert(a@ =~= b@);
    }
    true
}

fn subvec(v: &Vec<char>, lo: usize, hi: usize) -> (r: Vec<char>)
    requires
        lo <= hi <= v@.len(),
    ensures
        r@ == v@.subrange(lo as int, hi as int),
{
    let mut r: Vec<char> = Vec::new();
    let mut i: usize = lo;
    while i < hi
        invariant
            lo <= i <= hi <= v@.len(),
            r@ == v@.subrange(lo as int, i as int),
        decreases hi - i,
    {
        r.push(v[i]);
        proof {
            assert(v@.subrange(lo as int, i + 1) =~= v@.subrange(lo as int, i as int).push(
                v@[i as int],
            ));
        }
        i = i + 1;
    }
    r
}

fn bus_prefix_vec() -> (r: Vec<char>)
    ensures
        r@ == bus_prefix(),
{
    proof {
        reveal_strlit("org.mpris.MediaPlayer2.");
    }
    let v = str_to_chars("org.mpris.MediaPlayer2.");
    proof {
        assert(v@ =~= bus_prefix());
    }
    v
}

fn strip_bus_prefix_exec(bus: Vec<char>) -> (r: Vec<char>)
    ensures
        r@ == strip_bus_prefix(bus@),
{
    let prefix = bus_prefix_vec();
    let mut cur = bus;
    let ghost orig = cur@;
    loop
        invariant
            prefix@ == bus_prefix(),
            orig == bus@,
            strip_bus_prefix(orig) == strip_bus_prefix(cur@),
        decreases cur@.len(),
    {
        if cur.len() < prefix.len() {
            proof {
                assert(strip_bus_prefix(cur@) == cur@);
            }
            return cur;
        }
        let head = subvec(&cur, 0, prefix.len());
        if !chars_eq(&head, &prefix) {
            proof {
                assert(strip_bus_prefix(cur@) == cur@);
            }
            return cur;
        }
        let ghost pre = cur@;
        cur = subvec(&cur, prefix.len(), cur.len());
        proof {
            assert(pre.subrange(bus_prefix().len() as int, pre.len() as int) =~= pre.skip(
                bus_prefix().len() as int,
            ));
        }
    }
}

fn last_dot_exec(v: &Vec<char>) -> (r: Option<usize>)
    ensures
        match r {
            Some(k) => last_dot(v@) == k && k < v@.len(),
            None => last_dot(v@) == -1,
        },
{
    let mut j: usize = v.len();
    proof {
        assert(v@.subrange(0, v@.len() as int) =~= v@);
    }
    while j > 0
        invariant
            j <= v@.len(),
            last_dot(v@) == last_dot(v@.subrange(0, j as int)),
        decreases j,
    {
        proof {
            assert(v@.subrange(0, j as int).drop_last() =~= v@.subrange(0, j - 1));
        }
        if v[j - 1] == '.' {
            return Some(j - 1);
        }
        j = j - 1;
    }
    proof {
        assert(v@.subrange(0, 0) =~= Seq::<char>::empty());
    }
    None
}

fn in_whitelist_exec(wl: &Vec<String>, name: &Vec<char>) -> (r: bool)
    ensures
        r == in_whitelist(wl@, name@),
{
    let mut i: usize = 0;
    while i < wl.len()
        invariant
            i <= wl@.len(),
            forall|k: int| 0 <= k < i ==> (#[trigger] wl@[k])@ != name@,
        decreases wl@.len() - i,
    {
        let entry = str_to_chars(wl[i].as_str());
        if chars_eq(&entry, name) {
            return true;
        }
        i = i + 1;
    }
    false
}

/// Whether the unique part of the bus name, with and without its
/// instance suffix, matches a whitelist entry.
pub fn is_bus_name_whitelisted(bus_name: &str, whitelist: &Vec<String>) -> (r: bool)
    ensures
        r == bus_name_whitelisted(bus_name@, whitelist@),
{
    let unique = strip_bus_prefix_exec(str_to_chars(bus_name));
    if in_whitelist_exec(whitelist, &unique) {
        return true;
    }
    let shortened = match last_dot_exec(&unique) {
        Some(k) => subvec(&unique, 0, k),
        None => subvec(&unique, 0, unique.len()),
    };
    proof {
        if last_dot(unique@) < 0 {
            assert(unique@.subrange(0, unique@.len() as int) =~= unique@);
        }
    }
    in_whitelist_exec(whitelist, &shortened)
}

/// Whether a player may be tracked under this configuration, going by
/// its display identity and its bus name.
pub fn is_whitelisted(config: &Config, identity: &str, bus_name: &str) -> (r: bool)
    ensures
        r == whitelisted(
            identity@,
            bus_name@,
            match config.player_whitelist {
                Some(ref w) => Some(w@),
                None => None,
            },
        ),
{
    match &config.player_whitelist {
        Some(wl) => {
            if wl.len() == 0 {
                return true;
            }
            let id = str_to_chars(identity);
            if in_whitelist_exec(wl, &id) {
                return true;
            }
            is_bus_name_whitelisted(bus_name, wl)
        },
        None => true,
    }
}

} // verus!

//! The durable record of scrobbles that could not be delivered, and the
//! decisions of the startup replay: which records of each batch stay
//! cached after the configured services have been offered the batch.

use vstd::prelude::*;

use crate::track::{Track, TrackView};

verus! {

/// Cached scrobbles are replayed to the services in groups of this size.
pub const BATCH_SIZE: usize = 20;

/// Mathematical value of a [`CachedScrobble`].
#[verifier::ext_equal]
pub ghost struct CachedScrobbleView {
    pub timestamp: u64,
    pub track: TrackView,
}

/// One undelivered scrobble: the track and the moment it was listened
/// to, in seconds since the epoch. The timestamp is fixed when the
/// scrobble first fires, so a replayed delivery is recognizable to a
/// service as the same listen.
#[derive(Debug)]
pub struct CachedScrobble {
    timestamp: u64,
    track: Track,
}

impl View for CachedScrobble {
    type V = CachedScrobbleView;

    closed spec fn view(&self) -> CachedScrobbleView {
        CachedScrobbleView { timestamp: self.timestamp, track: self.track@ }
    }
}

/// The values of a sequence of cached scrobbles.
pub open spec fn views_of(rs: Seq<CachedScrobble>) -> Seq<CachedScrobbleView> {
    rs.map_values(|r: CachedScrobble| r@)
}

/// The values of a per-batch sequence of per-service outcomes.
pub open spec fn fails_views(fails: Seq<Vec<Option<usize>>>) -> Seq<Seq<Option<usize>>> {
    fails.map_values(|f: Vec<Option<usize>>| f@)
}

impl CachedScrobble {
    pub fn new(timestamp: u64, track: Track) -> (r: CachedScrobble)
        ensures
            r@ == (CachedScrobbleView { timestamp, track: track@ }),
    {
        CachedScrobble { timestamp, track }
    }

    pub fn timestamp(&self) -> (r: u64)
        ensures
            r == self@.timestamp,
    {
        self.timestamp
    }

    pub fn track(&self) -> (r: &Track)
        ensures
            r@ == self@.track,
    {
        &self.track
    }
}

impl Clone for CachedScrobble {
    fn clone(&self) -> (r: CachedScrobble)
        ensures
            r@ == self@,
    {
        CachedScrobble { timestamp: self.timestamp, track: self.track.clone() }
    }
}

/// How many replay batches a cache of `n` records is split into.
pub open spec fn batch_count(n: int) -> int {
    (n + BATCH_SIZE as int - 1) / (BATCH_SIZE as int)
}

/// The boundaries of the replay batches for `n` cached records: batch `b`
/// covers the records with indices in `[b * BATCH_SIZE, min(b * BATCH_SIZE
/// + BATCH_SIZE, n))`.
pub fn plan_batches(n: usize) -> (r: Vec<(usize, usize)>)
    ensures
        r@.len() == batch_count(n as int),
        forall|b: int|
            0 <= b < r@.len() ==> (#[trigger] r@[b]).0 == b * BATCH_SIZE && r@[b].1 == (if b
                * BATCH_SIZE + BATCH_SIZE <= n {
                b * BATCH_SIZE + BATCH_SIZE
            } else {
                n as int
            }),
{
    let mut r: Vec<(usize, usize)> = Vec::new();
    let mut start: usize = 0;
    while start < n
        invariant
            start <= n,
            start == 0 ==> r@.len() == 0,
            start == r@.len() * BATCH_SIZE || (start == n && n <= r@.len() * BATCH_SIZE),
            forall|b: int| 0 <= b < r@.len() ==> (#[trigger] r@[b]).0 == b * BATCH_SIZE,
            forall|b: int|
                0 <= b < r@.len() ==> (#[trigger] r@[b]).1 == (if b * BATCH_SIZE + BATCH_SIZE
                    <= n {
                    b * BATCH_SIZE + BATCH_SIZE
                } else {
                    n as int
                }),
            forall|b: int| 0 <= b < r@.len() ==> (#[trigger] r@[b]).0 < n,
        decreases n - start,
    {
        let end = if n - start >= BATCH_SIZE {
            start + BATCH_SIZE
        } else {
            n
        };
        r.push((start, end));
        start = end;
    }
    proof {
        if n == 0 {
            assert(batch_count(n as int) == 0);
        } else {
            let len = r@.len() as int;
            assert(len >= 1) by {
                if len == 0 {
                    assert(start == 0);
                }
            }
            assert((len - 1) * BATCH_SIZE < n <= len * BATCH_SIZE) by {
                assert(r@[len - 1].0 == (len - 1) * BATCH_SIZE);
                assert(r@[len - 1].0 < n);
            }
            assert(len == batch_count(n as int)) by (nonlinear_arith)
                requires
                    (len - 1) * 20 < n as int && n as int <= len * 20,
                    batch_count(n as int) == (n as int + 19) / 20,
                    len >= 1,
                    n as int >= 1,
            ;
        }
    }
    r
}

/// The index of the first record of a batch that failed for any service:
/// the smallest index named by any per-service outcome, or `len` when
/// every service took the whole batch.
pub open spec fn batch_cut(fails: Seq<Option<usize>>, len: int) -> int
    decreases fails.len(),
{
    if fails.len() == 0 {
        len
    } else {
        let rest = batch_cut(fails.drop_last(), len);
        match fails.last() {
            Some(k) => if k < rest {
                k as int
            } else {
                rest
            },
            None => rest,
        }
    }
}

/// The records of one replay batch that stay cached, given the outcome
/// each service reported for the batch: `None` when the service took the
/// whole batch, `Some(k)` when record `k` was the first to fail, in which
/// case `k` and everything after it in the batch was never delivered
/// there. Successfully delivered records are dropped; from the first
/// failure on, records are retained.
pub fn retained_of_batch(batch: &Vec<CachedScrobble>, fails: &Vec<Option<usize>>) -> (r: Vec<
    CachedScrobble,
>)
    ensures
        views_of(r@) == views_of(batch@).subrange(
            batch_cut(fails@, batch@.len() as int),
            batch@.len() as int,
        ),
{
    let len = batch.len();
    let mut cut: usize = len;
    let mut i: usize = 0;
    while i < fails.len()
        invariant
            cut <= len,
            len == batch@.len(),
            cut == batch_cut(fails@.subrange(0, i as int), len as int),
            i <= fails@.len(),
        decreases fails@.len() - i,
    {
        proof {
            assert(fails@.subrange(0, i + 1).drop_last() =~= fails@.subrange(0, i as int));
        }
        match fails[i] {
            Some(k) => {
                if k < cut {
                    cut = k;
                }
            },
            None => {},
        }
        i = i + 1;
    }
    proof {
        assert(fails@.subrange(0, fails@.len() as int) =~= fails@);
    }
    let mut r: Vec<CachedScrobble> = Vec::new();
    let mut j: usize = cut;
    while j < len
        invariant
            cut <= j <= len,
            len == batch@.len(),
            views_of(r@) == views_of(batch@).subrange(cut as int, j as int),
        decreases len - j,
    {
        r.push(batch[j].clone());
        proof {
            assert(views_of(batch@).subrange(cut as int, j + 1) =~= views_of(batch@).subrange(
                cut as int,
                j as int,
            ).push(batch@[j as int]@));
            assert(views_of(r@) =~= views_of(r@.drop_last()).push(r@.last()@));
        }
        j = j + 1;
    }
    r
}

/// The records that stay cached after the whole startup replay, batch
/// `b` onward.
pub open spec fn retained_from(
    rs: Seq<CachedScrobbleView>,
    fails: Seq<Seq<Option<usize>>>,
    b: int,
) -> Seq<CachedScrobbleView>
    decreases batch_count(rs.len() as int) - b,
{
    if b < 0 || b >= batch_count(rs.len() as int) || b >= fails.len() {
        Seq::empty()
    } else {
        let lo = b * BATCH_SIZE;
        let hi = if lo + BATCH_SIZE <= rs.len() {
            lo + BATCH_SIZE
        } else {
            rs.len() as int
        };
        let batch = rs.subrange(lo, hi);
        batch.subrange(batch_cut(fails[b], batch.len() as int), batch.len() as int)
            + retained_from(rs, fails, b + 1)
    }
}

/// The records that stay cached after the whole startup replay: for each
/// batch in order, the part of it some service did not take.
pub fn replay_retained(records: &Vec<CachedScrobble>, fails: &Vec<Vec<Option<usize>>>) -> (r: Vec<
    CachedScrobble,
>)
    ensures
        views_of(r@) == retained_from(views_of(records@), fails_views(fails@), 0),
{
    replay_retained_from(records, fails, 0)
}

fn replay_retained_from(
    records: &Vec<CachedScrobble>,
    fails: &Vec<Vec<Option<usize>>>,
    b: usize,
) -> (r: Vec<CachedScrobble>)
    ensures
        views_of(r@) == retained_from(views_of(records@), fails_views(fails@), b as int),
    decreases fails@.len() - b,
{
    let n = records.len();
    if b >= fails.len() || b > n / BATCH_SIZE || b * BATCH_SIZE >= n {
        proof {
            assert((b as int) >= batch_count(n as int) || b >= fails@.len()) by (nonlinear_arith)
                requires
                    b >= fails@.len() || (b as int) > (n as int) / 20 || (b as int) * 20 >= n as int,
                    batch_count(n as int) == (n as int + 19) / 20,
                    n as int >= 0,
            ;
        }
        Vec::new()
    } else {
        let lo = b * BATCH_SIZE;
        let hi = if n - lo >= BATCH_SIZE {
            lo + BATCH_SIZE
        } else {
            n
        };
        let mut batch: Vec<CachedScrobble> = Vec::new();
        let mut j: usize = lo;
        while j < hi
            invariant
                lo <= j <= hi <= n,
                n == records@.len(),
                views_of(batch@) == views_of(records@).subrange(lo as int, j as int),
            decreases hi - j,
        {
            batch.push(records[j].clone());
            proof {
                assert(views_of(records@).subrange(lo as int, j + 1) =~= views_of(
                    records@,
                ).subrange(lo as int, j as int).push(records@[j as int]@));
                assert(views_of(batch@) =~= views_of(batch@.drop_last()).push(batch@.last()@));
            }
            j = j + 1;
        }
        let mut r = retained_of_batch(&batch, &fails[b]);
        let mut rest = replay_retained_from(records, fails, b + 1);
        let ghost r_pre = r@;
        let ghost rest_pre = rest@;
        r.append(&mut rest);
        proof {
            assert(views_of(r@) =~= views_of(r_pre) + views_of(rest_pre));
            assert((b as int) < batch_count(n as int)) by (nonlinear_arith)
                requires
                    (b as int) * 20 < n as int,
                    batch_count(n as int) == (n as int + 19) / 20,
                    (b as int) >= 0,
                    n as int >= 0,
            ;
        }
        r
    }
}

/// A replay in which every service took every batch retains nothing: the
/// rewritten cache is empty.
pub proof fn lemma_replay_all_delivered(
    rs: Seq<CachedScrobbleView>,
    fails: Seq<Seq<Option<usize>>>,
    b: int,
)
    requires
        forall|x: int, y: int|
            0 <= x < fails.len() && 0 <= y < fails[x].len() ==> (#[trigger] fails[x][y]) is None,
    ensures
        retained_from(rs, fails, b) == Seq::<CachedScrobbleView>::empty(),
    decreases batch_count(rs.len() as int) - b,
{
    if !(b < 0 || b >= batch_count(rs.len() as int) || b >= fails.len()) {
        let lo = b * BATCH_SIZE;
        let hi = if lo + BATCH_SIZE <= rs.len() {
            lo + BATCH_SIZE
        } else {
            rs.len() as int
        };
        let batch = rs.subrange(lo, hi);
        lemma_batch_cut_all_none(fails[b], batch.len() as int);
        assert(batch.subrange(batch.len() as int, batch.len() as int) =~= Seq::<
            CachedScrobbleView,
        >::empty());
        lemma_replay_all_delivered(rs, fails, b + 1);
        assert(retained_from(rs, fails, b) =~= Seq::<CachedScrobbleView>::empty());
    }
}

proof fn lemma_batch_cut_all_none(fails: Seq<Option<usize>>, len: int)
    requires
        forall|y: int| 0 <= y < fails.len() ==> (#[trigger] fails[y]) is None,
    ensures
        batch_cut(fails, len) == len,
    decreases fails.len(),
{
    if fails.len() > 0 {
        lemma_batch_cut_all_none(fails.drop_last(), len);
    }
}

} // verus!

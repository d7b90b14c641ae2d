use vstd::prelude::*;

verus! {

// ---------------------------------------------------------------------------
// Feed content records
// ---------------------------------------------------------------------------

/// One observation of a piece of content in a feed, keyed by
/// `(feed_id, uri)`.
pub struct FeedContent {
    pub feed_id: String,
    pub uri: String,
    pub indexed_at: i64,
    pub score: i32,
}

/// The mathematical value of a `FeedContent`.
pub struct FeedContentV {
    pub feed_id: Seq<char>,
    pub uri: Seq<char>,
    pub indexed_at: int,
    pub score: int,
}

impl View for FeedContent {
    type V = FeedContentV;

    open spec fn view(&self) -> FeedContentV {
        FeedContentV {
            feed_id: self.feed_id@,
            uri: self.uri@,
            indexed_at: self.indexed_at as int,
            score: self.score as int,
        }
    }
}

/// What chrono can represent: whether a microsecond timestamp falls inside
/// the range of its `DateTime` type.
pub uninterp spec fn micros_in_datetime_range(micros: i64) -> bool;

/// Relies on chrono's `DateTime::from_timestamp_micros`, `trunc_subsecs` and
/// `timestamp`: within the representable range the resulting timestamp in
/// seconds is the Euclidean quotient of the microseconds by 1_000_000, and
/// outside it the conversion yields `None`. The documentation places the
/// range at roughly 262,000 years either side of the common era, so any
/// value within 8_000_000_000_000_000_000 microseconds of the epoch is
/// comfortably inside it.
#[verifier::external_body]
pub fn timestamp_micros_to_secs(micros: i64) -> (r: Option<i64>)
    ensures
        r is Some <==> micros_in_datetime_range(micros),
        r is Some ==> r.unwrap() as int == micros as int / 1_000_000,
        -8_000_000_000_000_000_000 <= micros <= 8_000_000_000_000_000_000 ==> r is Some,
{
    chrono::DateTime::from_timestamp_micros(micros)
        .map(|value| chrono::SubsecRound::trunc_subsecs(value, 0).timestamp())
}

/// The age of a record in whole hours at time `now` (seconds): at least one
/// hour, one more for every full 3600 seconds since the indexing time. A
/// timestamp that chrono cannot represent counts as the freshest possible,
/// one hour.
pub open spec fn spec_age_in_hours(indexed_at: i64, now: i64) -> int {
    if micros_in_datetime_range(indexed_at) {
        let diff = now - indexed_at as int / 1_000_000;
        if diff < 0 {
            1
        } else {
            diff / 3600 + 1
        }
    } else {
        1
    }
}

impl FeedContent {
    /// Derived freshness measure; malformed indexing timestamps deliberately
    /// count as one hour old so that they never suppress content.
    pub fn age_in_hours(&self, now: i64) -> (r: i64)
        requires
            -9_000_000_000_000_000_000 <= now <= 9_000_000_000_000_000_000,
        ensures
            r == spec_age_in_hours(self.indexed_at, now),
            r >= 1,
    {
        let target = timestamp_micros_to_secs(self.indexed_at);
        if target.is_none() {
            return 1;
        }
        let target = target.unwrap();
        assert(-9_223_372_036_855int <= target as int <= 9_223_372_036_855int) by {
            assert(target as int == self.indexed_at as int / 1_000_000);
        };
        let diff_seconds = now - target;
        if diff_seconds < 0 {
            1
        } else {
            diff_seconds / 3600 + 1
        }
    }
}

// ---------------------------------------------------------------------------
// The ranking store
// ---------------------------------------------------------------------------

/// A stored feed content row: the record plus the time of its last write.
pub struct StoredRow {
    pub content: FeedContent,
    pub updated_at: i64,
}

pub struct StoredRowV {
    pub content: FeedContentV,
    pub updated_at: int,
}

impl View for StoredRow {
    type V = StoredRowV;

    open spec fn view(&self) -> StoredRowV {
        StoredRowV { content: self.content@, updated_at: self.updated_at as int }
    }
}

/// A failed persistence operation: the accumulated score left the range of
/// its column.
#[derive(Clone, Copy, Debug, PartialEq, Eq, Structural)]
pub enum StoreError {
    ScoreOverflow,
}

pub open spec fn row_has_key(rows: Seq<StoredRowV>, i: int, fid: Seq<char>, uri: Seq<char>) -> bool {
    rows[i].content.feed_id == fid && rows[i].content.uri == uri
}

pub open spec fn has_key(rows: Seq<StoredRowV>, fid: Seq<char>, uri: Seq<char>) -> bool {
    exists|i: int| 0 <= i < rows.len() && row_has_key(rows, i, fid, uri)
}

/// The rows of a feed, in stored order, shorn of their `updated_at`.
pub open spec fn matching_rows(rows: Seq<StoredRowV>, fid: Seq<char>) -> Seq<FeedContentV>
    decreases rows.len(),
{
    if rows.len() == 0 {
        Seq::empty()
    } else if rows.last().content.feed_id == fid {
        matching_rows(rows.drop_last(), fid).push(rows.last().content)
    } else {
        matching_rows(rows.drop_last(), fid)
    }
}

/// The rows whose last write is at or after the cutoff, in stored order.
pub open spec fn retained_rows(rows: Seq<StoredRowV>, cutoff: int) -> Seq<StoredRowV>
    decreases rows.len(),
{
    if rows.len() == 0 {
        Seq::empty()
    } else if rows.last().updated_at >= cutoff {
        retained_rows(rows.drop_last(), cutoff).push(rows.last())
    } else {
        retained_rows(rows.drop_last(), cutoff)
    }
}

/// The persistent, score-accumulating content table, one row per
/// `(feed_id, uri)`, kept ordered by `indexed_at` descending.
pub struct FeedStore {
    rows: Vec<StoredRow>,
}

impl View for FeedStore {
    type V = Seq<StoredRowV>;

    closed spec fn view(&self) -> Seq<StoredRowV> {
        self.rows@.map_values(|r: StoredRow| r@)
    }
}

impl FeedStore {
    /// Key uniqueness and recency ordering: no two rows share
    /// `(feed_id, uri)`, and `indexed_at` never increases along the rows.
    pub open spec fn wf(&self) -> bool {
        &&& forall|i: int, j: int|
            0 <= i < j < self@.len() ==> !(#[trigger] self@[i].content.feed_id
                == #[trigger] self@[j].content.feed_id && self@[i].content.uri
                == self@[j].content.uri)
        &&& forall|i: int, j: int|
            0 <= i <= j < self@.len() ==> #[trigger] self@[i].content.indexed_at
                >= #[trigger] self@[j].content.indexed_at
    }

    pub fn new() -> (r: FeedStore)
        ensures
            r@ == Seq::<StoredRowV>::empty(),
            r.wf(),
    {
        let r = FeedStore { rows: Vec::new() };
        proof {
            assert(r@ =~= Seq::<StoredRowV>::empty());
        }
        r
    }

    fn find_key(&self, fid: &String, uri: &String) -> (r: Option<usize>)
        ensures
            r is Some ==> 0 <= r.unwrap() < self@.len()
                && row_has_key(self@, r.unwrap() as int, fid@, uri@),
            r is None ==> !has_key(self@, fid@, uri@),
    {
        let n = self.rows.len();
        let mut i: usize = 0;
        while i < n
            invariant
                n == self@.len(),
                0 <= i <= n,
                forall|j: int| 0 <= j < i ==> !row_has_key(self@, j, fid@, uri@),
            decreases n - i,
        {
            if self.rows[i].content.feed_id == *fid && self.rows[i].content.uri == *uri {
                return Some(i);
            }
            i = i + 1;
        }
        None
    }

    /// Insert a new observation, or fold it into the existing row with the
    /// same key: the score accumulates, it is never replaced, and
    /// `updated_at` is refreshed. A sum that leaves the score column's range
    /// fails the operation and leaves the store unchanged.
    pub fn feed_content_upsert(&mut self, rec: &FeedContent, now: i64) -> (r: Result<(), StoreError>)
        requires
            old(self).wf(),
        ensures
            final(self).wf(),
            !has_key(old(self)@, rec.feed_id@, rec.uri@) ==> r is Ok && exists|pos: int|
                0 <= pos <= old(self)@.len()
                && (forall|j: int| 0 <= j < pos ==> old(self)@[j].content.indexed_at >= rec.indexed_at as int)
                && (pos < old(self)@.len() ==> old(self)@[pos as int].content.indexed_at < rec.indexed_at as int)
                && final(self)@ == old(self)@.insert(pos, (StoredRowV { content: rec@, updated_at: now as int })),
            has_key(old(self)@, rec.feed_id@, rec.uri@) ==> exists|i: int|
                0 <= i < old(self)@.len() && #[trigger] row_has_key(old(self)@, i, rec.feed_id@, rec.uri@)
                && if i32::MIN <= old(self)@[i].content.score + rec.score as int <= i32::MAX {
                    r is Ok && final(self)@ == old(self)@.update(i, (StoredRowV {
                        content: FeedContentV {
                            feed_id: old(self)@[i].content.feed_id,
                            uri: old(self)@[i].content.uri,
                            indexed_at: old(self)@[i].content.indexed_at,
                            score: old(self)@[i].content.score + rec.score as int,
                        },
                        updated_at: now as int,
                    }))
                } else {
                    r is Err && final(self)@ == old(self)@
                },
    {
        let found = self.find_key(&rec.feed_id, &rec.uri);
        match found {
            Some(i) => {
                let old_score = self.rows[i].content.score;
                match old_score.checked_add(rec.score) {
                    Some(new_score) => {
                        let fid = self.rows[i].content.feed_id.clone();
                        let uri = self.rows[i].content.uri.clone();
                        let ia = self.rows[i].content.indexed_at;
                        let new_row = StoredRow {
                            content: FeedContent {
                                feed_id: fid,
                                uri: uri,
                                indexed_at: ia,
                                score: new_score,
                            },
                            updated_at: now,
                        };
                        let ghost nrv = new_row@;
                        self.rows[i] = new_row;
                        proof {
                            assert(self@[i as int] == nrv);
                            assert(nrv == (StoredRowV {
                                content: FeedContentV {
                                    feed_id: old(self)@[i as int].content.feed_id,
                                    uri: old(self)@[i as int].content.uri,
                                    indexed_at: old(self)@[i as int].content.indexed_at,
                                    score: old(self)@[i as int].content.score + rec.score as int,
                                },
                                updated_at: now as int,
                            }));
                            assert(self@ =~= old(self)@.update(i as int, nrv));
                            assert(forall|k: int| 0 <= k < self@.len() && k != i ==> self@[k] == old(self)@[k]);
                            assert(self.wf());
                        }
                        Ok(())
                    },
                    None => {
                        proof {
                            assert(self@ =~= old(self)@);
                        }
                        Err(StoreError::ScoreOverflow)
                    },
                }
            },
            None => {
                let n = self.rows.len();
                let mut pos: usize = 0;
                while pos < n && self.rows[pos].content.indexed_at >= rec.indexed_at
                    invariant
                        n == self@.len(),
                        0 <= pos <= n,
                        self == old(self),
                        forall|j: int| 0 <= j < pos ==> self@[j].content.indexed_at >= rec.indexed_at as int,
                    decreases n - pos,
                {
                    pos = pos + 1;
                }
                let ghost oldv = self@;
                let ghost posg = pos as int;
                proof {
                    assert(posg < n ==> oldv[posg].content.indexed_at < rec.indexed_at as int);
                }
                let new_row = StoredRow {
                    content: FeedContent {
                        feed_id: rec.feed_id.clone(),
                        uri: rec.uri.clone(),
                        indexed_at: rec.indexed_at,
                        score: rec.score,
                    },
                    updated_at: now,
                };
                let ghost nrv = new_row@;
                self.rows.insert(pos, new_row);
                proof {
                    assert(nrv == (StoredRowV { content: rec@, updated_at: now as int }));
                    assert(self@ =~= oldv.insert(posg, nrv));
                    assert(forall|k: int| 0 <= k < posg ==> self@[k] == oldv[k]);
                    assert(forall|k: int| posg < k < self@.len() ==> self@[k] == oldv[k - 1]);
                    assert(self@[posg] == nrv);
                    assert forall|j: int| posg <= j < oldv.len() implies
                        oldv[j].content.indexed_at < rec.indexed_at as int by {
                        assert(oldv[posg].content.indexed_at >= oldv[j].content.indexed_at);
                    }
                    assert(forall|j: int|
                        0 <= j < oldv.len() ==> !row_has_key(oldv, j, rec.feed_id@, rec.uri@));
                    assert forall|a: int, b: int| 0 <= a < b < self@.len() implies
                        !(self@[a].content.feed_id == self@[b].content.feed_id
                            && self@[a].content.uri == self@[b].content.uri) by {
                        if a == posg {
                            assert(self@[b] == oldv[b - 1]);
                            assert(!row_has_key(oldv, b - 1, rec.feed_id@, rec.uri@));
                        } else if b == posg {
                            assert(self@[a] == oldv[a]);
                            assert(!row_has_key(oldv, a, rec.feed_id@, rec.uri@));
                        } else {
                            let a2 = if a < posg { a } else { a - 1 };
                            let b2 = if b < posg { b } else { b - 1 };
                            assert(self@[a] == oldv[a2]);
                            assert(self@[b] == oldv[b2]);
                            assert(0 <= a2 < b2 < oldv.len());
                            assert(!(oldv[a2].content.feed_id == oldv[b2].content.feed_id
                                && oldv[a2].content.uri == oldv[b2].content.uri));
                        }
                    }
                    assert forall|a: int, b: int| 0 <= a <= b < self@.len() implies
                        self@[a].content.indexed_at >= self@[b].content.indexed_at by {
                        if a == b {
                        } else if a == posg {
                            assert(self@[b] == oldv[b - 1]);
                            assert(oldv[b - 1].content.indexed_at < rec.indexed_at as int);
                        } else if b == posg {
                            assert(self@[a] == oldv[a]);
                            assert(oldv[a].content.indexed_at >= rec.indexed_at as int);
                        } else {
                            let a2 = if a < posg { a } else { a - 1 };
                            let b2 = if b < posg { b } else { b - 1 };
                            assert(self@[a] == oldv[a2]);
                            assert(self@[b] == oldv[b2]);
                            assert(0 <= a2 <= b2 < oldv.len());
                            assert(oldv[a2].content.indexed_at >= oldv[b2].content.indexed_at);
                        }
                    }
                    assert(self.wf());
                }
                Ok(())
            },
        }
    }

    /// Fold an observation into an existing row only: the score accumulates
    /// and `updated_at` is refreshed; a missing row leaves the store
    /// unchanged, as a database update matching nothing would.
    pub fn feed_content_update(&mut self, rec: &FeedContent, now: i64) -> (r: Result<(), StoreError>)
        requires
            old(self).wf(),
        ensures
            final(self).wf(),
            !has_key(old(self)@, rec.feed_id@, rec.uri@) ==> r is Ok && final(self)@ == old(self)@,
            has_key(old(self)@, rec.feed_id@, rec.uri@) ==> exists|i: int|
                0 <= i < old(self)@.len() && #[trigger] row_has_key(old(self)@, i, rec.feed_id@, rec.uri@)
                && if i32::MIN <= old(self)@[i].content.score + rec.score as int <= i32::MAX {
                    r is Ok && final(self)@ == old(self)@.update(i, (StoredRowV {
                        content: FeedContentV {
                            feed_id: old(self)@[i].content.feed_id,
                            uri: old(self)@[i].content.uri,
                            indexed_at: old(self)@[i].content.indexed_at,
                            score: old(self)@[i].content.score + rec.score as int,
                        },
                        updated_at: now as int,
                    }))
                } else {
                    r is Err && final(self)@ == old(self)@
                },
    {
        let found = self.find_key(&rec.feed_id, &rec.uri);
        match found {
            Some(i) => {
                let old_score = self.rows[i].content.score;
                match old_score.checked_add(rec.score) {
                    Some(new_score) => {
                        let fid = self.rows[i].content.feed_id.clone();
                        let uri = self.rows[i].content.uri.clone();
                        let ia = self.rows[i].content.indexed_at;
                        let new_row = StoredRow {
                            content: FeedContent {
                                feed_id: fid,
                                uri: uri,
                                indexed_at: ia,
                                score: new_score,
                            },
                            updated_at: now,
                        };
                        let ghost nrv = new_row@;
                        self.rows[i] = new_row;
                        proof {
                            assert(self@[i as int] == nrv);
                            assert(nrv == (StoredRowV {
                                content: FeedContentV {
                                    feed_id: old(self)@[i as int].content.feed_id,
                                    uri: old(self)@[i as int].content.uri,
                                    indexed_at: old(self)@[i as int].content.indexed_at,
                                    score: old(self)@[i as int].content.score + rec.score as int,
                                },
                                updated_at: now as int,
                            }));
                            assert(self@ =~= old(self)@.update(i as int, nrv));
                            assert(forall|k: int| 0 <= k < self@.len() && k != i ==> self@[k] == old(self)@[k]);
                            assert(self.wf());
                        }
                        Ok(())
                    },
                    None => {
                        proof {
                            assert(self@ =~= old(self)@);
                        }
                        Err(StoreError::ScoreOverflow)
                    },
                }
            },
            None => {
                proof {
                    assert(self@ =~= old(self)@);
                }
                Ok(())
            },
        }
    }

    /// The read path: the rows of `feed_uri` ordered by `indexed_at`
    /// descending (the stored order), truncated to `limit`.
    pub fn feed_content_cached(&self, feed_uri: &str, limit: u32) -> (r: Vec<FeedContent>)
        requires
            self.wf(),
        ensures
            r@.len() == if matching_rows(self@, feed_uri@).len() <= limit as int {
                matching_rows(self@, feed_uri@).len() as int
            } else {
                limit as int
            },
            forall|k: int| 0 <= k < r@.len() ==> #[trigger] r@[k]@ == matching_rows(self@, feed_uri@)[k],
    {
        let fid: String = feed_uri.to_owned();
        let n = self.rows.len();
        let mut out: Vec<FeedContent> = Vec::new();
        let mut i: usize = 0;
        while i < n
            invariant
                n == self@.len(),
                0 <= i <= n,
                fid@ == feed_uri@,
                out@.len() == if matching_rows(self@.take(i as int), feed_uri@).len() <= limit as int {
                    matching_rows(self@.take(i as int), feed_uri@).len() as int
                } else {
                    limit as int
                },
                forall|k: int| 0 <= k < out@.len()
                    ==> #[trigger] out@[k]@ == matching_rows(self@.take(i as int), feed_uri@)[k],
            decreases n - i,
        {
            proof {
                assert(self@.take(i + 1).drop_last() =~= self@.take(i as int));
                assert(self@.take(i + 1).last() == self@[i as int]);
            }
            if self.rows[i].content.feed_id == fid {
                if (out.len() as u32) < limit {
                    let c = &self.rows[i].content;
                    out.push(FeedContent {
                        feed_id: c.feed_id.clone(),
                        uri: c.uri.clone(),
                        indexed_at: c.indexed_at,
                        score: c.score,
                    });
                }
            }
            i = i + 1;
        }
        proof {
            assert(self@.take(n as int) =~= self@);
        }
        out
    }

    /// Retention eviction: delete every row whose last write is before the
    /// cutoff, keeping the rest in order.
    pub fn feed_content_truncate_oldest(&mut self, cutoff: i64)
        requires
            old(self).wf(),
        ensures
            final(self).wf(),
            final(self)@ == retained_rows(old(self)@, cutoff as int),
    {
        let n = self.rows.len();
        let mut kept: Vec<StoredRow> = Vec::new();
        let mut i: usize = 0;
        while i < n
            invariant
                n == self@.len(),
                0 <= i <= n,
                self == old(self),
                self.wf(),
                kept@.map_values(|r: StoredRow| r@) == retained_rows(self@.take(i as int), cutoff as int),
                forall|k: int, j: int|
                    0 <= k < kept@.len() && i <= j < self@.len()
                        ==> !((#[trigger] kept@[k])@.content.feed_id
                            == (#[trigger] self@[j]).content.feed_id
                            && kept@[k]@.content.uri == self@[j].content.uri),
                forall|k: int, j: int|
                    0 <= k < kept@.len() && i <= j < self@.len()
                        ==> (#[trigger] kept@[k])@.content.indexed_at
                            >= (#[trigger] self@[j]).content.indexed_at,
                forall|k1: int, k2: int|
                    0 <= k1 < k2 < kept@.len()
                        ==> !((#[trigger] kept@[k1])@.content.feed_id
                            == (#[trigger] kept@[k2])@.content.feed_id
                            && kept@[k1]@.content.uri == kept@[k2]@.content.uri),
                forall|k1: int, k2: int|
                    0 <= k1 <= k2 < kept@.len()
                        ==> (#[trigger] kept@[k1])@.content.indexed_at
                            >= (#[trigger] kept@[k2])@.content.indexed_at,
            decreases n - i,
        {
            proof {
                assert(self@.take(i + 1).drop_last() =~= self@.take(i as int));
                assert(self@.take(i + 1).last() == self@[i as int]);
            }
            let row = &self.rows[i];
            if row.updated_at >= cutoff {
                let c = &row.content;
                let copied = StoredRow {
                    content: FeedContent {
                        feed_id: c.feed_id.clone(),
                        uri: c.uri.clone(),
                        indexed_at: c.indexed_at,
                        score: c.score,
                    },
                    updated_at: row.updated_at,
                };
                assert(copied@ == self@[i as int]);
                kept.push(copied);
            }
            i = i + 1;
        }
        proof {
            assert(self@.take(n as int) =~= self@);
        }
        self.rows = kept;
    }
}

// ---------------------------------------------------------------------------
// The verification-key cache
// ---------------------------------------------------------------------------

/// Cached key material for one decentralized identifier.
pub struct KeyEntry {
    pub did: String,
    pub multikey: String,
    pub updated_at: i64,
}

pub struct KeyEntryV {
    pub did: Seq<char>,
    pub multikey: Seq<char>,
    pub updated_at: int,
}

impl View for KeyEntry {
    type V = KeyEntryV;

    open spec fn view(&self) -> KeyEntryV {
        KeyEntryV { did: self.did@, multikey: self.multikey@, updated_at: self.updated_at as int }
    }
}

/// The key material cached for a given identifier: that of the first entry
/// carrying it, or `None` when no entry does.
pub open spec fn lookup_multikey(entries: Seq<KeyEntryV>, did: Seq<char>) -> Option<Seq<char>>
    decreases entries.len(),
{
    if entries.len() == 0 {
        None
    } else if entries[0].did == did {
        Some(entries[0].multikey)
    } else {
        lookup_multikey(entries.drop_first(), did)
    }
}

pub open spec fn cache_has_did(entries: Seq<KeyEntryV>, did: Seq<char>) -> bool {
    exists|i: int| 0 <= i < entries.len() && (#[trigger] entries[i]).did == did
}

/// The entries whose last refresh is at or after the cutoff, in stored order.
pub open spec fn retained_keys(entries: Seq<KeyEntryV>, cutoff: int) -> Seq<KeyEntryV>
    decreases entries.len(),
{
    if entries.len() == 0 {
        Seq::empty()
    } else if entries.last().updated_at >= cutoff {
        retained_keys(entries.drop_last(), cutoff).push(entries.last())
    } else {
        retained_keys(entries.drop_last(), cutoff)
    }
}

/// How long cached key material stays valid without a refresh: seven days,
/// in seconds.
pub const KEY_CACHE_RETENTION_SECS: i64 = 604800;

/// Durable mapping from decentralized identifier to public-key material,
/// one entry per identifier, replace-on-write.
pub struct VerificationKeyCache {
    entries: Vec<KeyEntry>,
}

impl View for VerificationKeyCache {
    type V = Seq<KeyEntryV>;

    closed spec fn view(&self) -> Seq<KeyEntryV> {
        self.entries@.map_values(|e: KeyEntry| e@)
    }
}

impl VerificationKeyCache {
    /// No two entries share an identifier.
    pub open spec fn wf(&self) -> bool {
        forall|i: int, j: int|
            0 <= i < j < self@.len() ==> (#[trigger] self@[i]).did != (#[trigger] self@[j]).did
    }

    pub fn new() -> (r: VerificationKeyCache)
        ensures
            r@ == Seq::<KeyEntryV>::empty(),
            r.wf(),
    {
        let r = VerificationKeyCache { entries: Vec::new() };
        proof {
            assert(r@ =~= Seq::<KeyEntryV>::empty());
        }
        r
    }

    /// Create or refresh the key material for an identifier: the latest
    /// resolution wins.
    pub fn verifcation_method_insert(&mut self, did: &str, multikey: &str, now: i64)
        requires
            old(self).wf(),
        ensures
            final(self).wf(),
            lookup_multikey(final(self)@, did@) == Some(multikey@),
            !cache_has_did(old(self)@, did@) ==> final(self)@ == old(self)@.push(
                (KeyEntryV { did: did@, multikey: multikey@, updated_at: now as int }),
            ),
            cache_has_did(old(self)@, did@) ==> exists|i: int|
                0 <= i < old(self)@.len() && (#[trigger] old(self)@[i]).did == did@
                    && final(self)@ == old(self)@.update(i, (KeyEntryV {
                    did: did@,
                    multikey: multikey@,
                    updated_at: now as int,
                })),
    {
        let did_s: String = did.to_owned();
        let mk_s: String = multikey.to_owned();
        let n = self.entries.len();
        let mut i: usize = 0;
        while i < n
            invariant
                n == self@.len(),
                0 <= i <= n,
                self == old(self),
                old(self).wf(),
                did_s@ == did@,
                mk_s@ == multikey@,
                forall|j: int| 0 <= j < i ==> (#[trigger] self@[j]).did != did@,
            decreases n - i,
        {
            if self.entries[i].did == did_s {
                let entry = KeyEntry { did: did_s, multikey: mk_s, updated_at: now };
                let ghost ev = entry@;
                self.entries[i] = entry;
                proof {
                    assert(old(self)@[i as int].did == did@);
                    assert(cache_has_did(old(self)@, did@));
                    assert(self@[i as int] == ev);
                    assert(self@ =~= old(self)@.update(i as int, ev));
                    assert(forall|k: int|
                        0 <= k < self@.len() && k != i ==> self@[k] == old(self)@[k]);
                    assert(forall|a: int, b: int|
                        0 <= a < b < old(self)@.len() ==> (#[trigger] old(self)@[a]).did
                            != (#[trigger] old(self)@[b]).did);
                    assert forall|a: int, b: int| 0 <= a < b < self@.len() implies
                        (self@[a]).did != (self@[b]).did by {
                        assert(self@.len() == old(self)@.len());
                        assert(old(self)@[a].did != old(self)@[b].did);
                    }
                    assert(self.wf());
                    lemma_lookup_found(self@, did@, i as int);
                }
                return ;
            }
            i = i + 1;
        }
        let entry = KeyEntry { did: did_s, multikey: mk_s, updated_at: now };
        let ghost ev = entry@;
        self.entries.push(entry);
        proof {
            assert(self@ =~= old(self)@.push(ev));
            assert(forall|k: int| 0 <= k < old(self)@.len() ==> self@[k] == old(self)@[k]);
            assert(self@[self@.len() - 1] == ev);
            assert forall|a: int, b: int| 0 <= a < b < self@.len() implies
                (self@[a]).did != (self@[b]).did by {
                if b == self@.len() - 1 {
                    assert(old(self)@[a].did != did@);
                } else {
                    assert(old(self)@[a].did != old(self)@[b].did);
                }
            }
            assert(self.wf());
            lemma_lookup_found(self@, did@, self@.len() - 1);
        }
    }

    /// The cached key material for an identifier; a miss is absence, never
    /// an error, and no resolution happens here.
    pub fn verification_method_get(&self, did: &str) -> (r: Option<String>)
        ensures
            r is Some <==> lookup_multikey(self@, did@) is Some,
            r is Some ==> r.unwrap()@ == lookup_multikey(self@, did@).unwrap(),
    {
        let did_s: String = did.to_owned();
        let n = self.entries.len();
        proof {
            assert(self@.skip(0) =~= self@);
        }
        let mut i: usize = 0;
        while i < n
            invariant
                n == self@.len(),
                0 <= i <= n,
                did_s@ == did@,
                lookup_multikey(self@, did@) == lookup_multikey(self@.skip(i as int), did@),
            decreases n - i,
        {
            proof {
                assert(self@.skip(i as int)[0] == self@[i as int]);
                assert(self@.skip(i as int).drop_first() =~= self@.skip(i + 1));
            }
            if self.entries[i].did == did_s {
                return Some(self.entries[i].multikey.clone());
            }
            i = i + 1;
        }
        proof {
            assert(self@.skip(n as int) =~= Seq::<KeyEntryV>::empty());
        }
        None
    }

    /// Staleness eviction: drop every entry whose last refresh is more than
    /// seven days before `now`, forcing a fresh resolution on next use.
    pub fn verification_method_cleanup(&mut self, now: i64)
        requires
            old(self).wf(),
            i64::MIN + KEY_CACHE_RETENTION_SECS <= now,
        ensures
            final(self).wf(),
            final(self)@ == retained_keys(old(self)@, now - KEY_CACHE_RETENTION_SECS),
    {
        let cutoff = now - KEY_CACHE_RETENTION_SECS;
        let n = self.entries.len();
        let mut kept: Vec<KeyEntry> = Vec::new();
        let mut i: usize = 0;
        while i < n
            invariant
                n == self@.len(),
                0 <= i <= n,
                self == old(self),
                self.wf(),
                cutoff == now - KEY_CACHE_RETENTION_SECS,
                kept@.map_values(|e: KeyEntry| e@) == retained_keys(self@.take(i as int), cutoff as int),
                forall|k: int, j: int|
                    0 <= k < kept@.len() && i <= j < self@.len()
                        ==> (#[trigger] kept@[k])@.did != (#[trigger] self@[j]).did,
                forall|k1: int, k2: int|
                    0 <= k1 < k2 < kept@.len()
                        ==> (#[trigger] kept@[k1])@.did != (#[trigger] kept@[k2])@.did,
            decreases n - i,
        {
            proof {
                assert(self@.take(i + 1).drop_last() =~= self@.take(i as int));
                assert(self@.take(i + 1).last() == self@[i as int]);
            }
            let e = &self.entries[i];
            if e.updated_at >= cutoff {
                let copied = KeyEntry {
                    did: e.did.clone(),
                    multikey: e.multikey.clone(),
                    updated_at: e.updated_at,
                };
                assert(copied@ == self@[i as int]);
                kept.push(copied);
            }
            i = i + 1;
        }
        proof {
            assert(self@.take(n as int) =~= self@);
        }
        self.entries = kept;
    }
}

/// In a cache without duplicate identifiers, the entry at a matching index
/// is what lookup returns.
proof fn lemma_lookup_found(entries: Seq<KeyEntryV>, did: Seq<char>, i: int)
    requires
        0 <= i < entries.len(),
        entries[i].did == did,
        forall|j: int| 0 <= j < i ==> (#[trigger] entries[j]).did != did,
    ensures
        lookup_multikey(entries, did) == Some(entries[i].multikey),
    decreases entries.len(),
{
    if i > 0 {
        assert(entries.drop_first()[i - 1] == entries[i]);
        assert(forall|j: int|
            0 <= j < i - 1 ==> (#[trigger] entries.drop_first()[j]).did != did);
        lemma_lookup_found(entries.drop_first(), did, i - 1);
    }
}

// ---------------------------------------------------------------------------
// The consumer control bookmark
// ---------------------------------------------------------------------------

/// The last processed position of one ingestion source.
pub struct BookmarkEntry {
    pub source: String,
    pub time_us: i64,
    pub updated_at: i64,
}

pub struct BookmarkEntryV {
    pub source: Seq<char>,
    pub time_us: int,
    pub updated_at: int,
}

impl View for BookmarkEntry {
    type V = BookmarkEntryV;

    open spec fn view(&self) -> BookmarkEntryV {
        BookmarkEntryV {
            source: self.source@,
            time_us: self.time_us as int,
            updated_at: self.updated_at as int,
        }
    }
}

/// The bookmark recorded for a source: that of the first entry carrying it.
pub open spec fn lookup_time_us(entries: Seq<BookmarkEntryV>, source: Seq<char>) -> Option<int>
    decreases entries.len(),
{
    if entries.len() == 0 {
        None
    } else if entries[0].source == source {
        Some(entries[0].time_us)
    } else {
        lookup_time_us(entries.drop_first(), source)
    }
}

pub open spec fn bookmark_has_source(entries: Seq<BookmarkEntryV>, source: Seq<char>) -> bool {
    exists|i: int| 0 <= i < entries.len() && (#[trigger] entries[i]).source == source
}

/// One row per ingestion source, holding the last processed position,
/// replace-on-write.
pub struct ConsumerControlStore {
    entries: Vec<BookmarkEntry>,
}

impl View for ConsumerControlStore {
    type V = Seq<BookmarkEntryV>;

    closed spec fn view(&self) -> Seq<BookmarkEntryV> {
        self.entries@.map_values(|e: BookmarkEntry| e@)
    }
}

impl ConsumerControlStore {
    /// No two entries share a source.
    pub open spec fn wf(&self) -> bool {
        forall|i: int, j: int|
            0 <= i < j < self@.len() ==> (#[trigger] self@[i]).source != (#[trigger] self@[j]).source
    }

    pub fn new() -> (r: ConsumerControlStore)
        ensures
            r@ == Seq::<BookmarkEntryV>::empty(),
            r.wf(),
    {
        let r = ConsumerControlStore { entries: Vec::new() };
        proof {
            assert(r@ =~= Seq::<BookmarkEntryV>::empty());
        }
        r
    }

    /// Record the last processed position of a source: the latest write
    /// wins.
    pub fn consumer_control_insert(&mut self, source: &str, time_us: i64, now: i64)
        requires
            old(self).wf(),
        ensures
            final(self).wf(),
            lookup_time_us(final(self)@, source@) == Some(time_us as int),
            !bookmark_has_source(old(self)@, source@) ==> final(self)@ == old(self)@.push(
                (BookmarkEntryV { source: source@, time_us: time_us as int, updated_at: now as int }),
            ),
            bookmark_has_source(old(self)@, source@) ==> exists|i: int|
                0 <= i < old(self)@.len() && (#[trigger] old(self)@[i]).source == source@
                    && final(self)@ == old(self)@.update(i, (BookmarkEntryV {
                    source: source@,
                    time_us: time_us as int,
                    updated_at: now as int,
                })),
    {
        let source_s: String = source.to_owned();
        let n = self.entries.len();
        let mut i: usize = 0;
        while i < n
            invariant
                n == self@.len(),
                0 <= i <= n,
                self == old(self),
                old(self).wf(),
                source_s@ == source@,
                forall|j: int| 0 <= j < i ==> (#[trigger] self@[j]).source != source@,
            decreases n - i,
        {
            if self.entries[i].source == source_s {
                let entry = BookmarkEntry { source: source_s, time_us: time_us, updated_at: now };
                let ghost ev = entry@;
                self.entries[i] = entry;
                proof {
                    assert(old(self)@[i as int].source == source@);
                    assert(bookmark_has_source(old(self)@, source@));
                    assert(self@[i as int] == ev);
                    assert(self@ =~= old(self)@.update(i as int, ev));
                    assert(forall|k: int|
                        0 <= k < self@.len() && k != i ==> self@[k] == old(self)@[k]);
                    assert(forall|a: int, b: int|
                        0 <= a < b < old(self)@.len() ==> (#[trigger] old(self)@[a]).source
                            != (#[trigger] old(self)@[b]).source);
                    assert forall|a: int, b: int| 0 <= a < b < self@.len() implies
                        (self@[a]).source != (self@[b]).source by {
                        assert(self@.len() == old(self)@.len());
                        assert(old(self)@[a].source != old(self)@[b].source);
                    }
                    assert(self.wf());
                    lemma_bookmark_found(self@, source@, i as int);
                }
                return ;
            }
            i = i + 1;
        }
        let entry = BookmarkEntry { source: source_s, time_us: time_us, updated_at: now };
        let ghost ev = entry@;
        self.entries.push(entry);
        proof {
            assert(self@ =~= old(self)@.push(ev));
            assert(forall|k: int| 0 <= k < old(self)@.len() ==> self@[k] == old(self)@[k]);
            assert(self@[self@.len() - 1] == ev);
            assert forall|a: int, b: int| 0 <= a < b < self@.len() implies
                (self@[a]).source != (self@[b]).source by {
                if b == self@.len() - 1 {
                    assert(old(self)@[a].source != source@);
                } else {
                    assert(old(self)@[a].source != old(self)@[b].source);
                }
            }
            assert(self.wf());
            lemma_bookmark_found(self@, source@, self@.len() - 1);
        }
    }

    /// The position to resume a source from, if one was ever recorded.
    pub fn consumer_control_get(&self, source: &str) -> (r: Option<i64>)
        ensures
            r is Some <==> lookup_time_us(self@, source@) is Some,
            r is Some ==> r.unwrap() as int == lookup_time_us(self@, source@).unwrap(),
    {
        let source_s: String = source.to_owned();
        let n = self.entries.len();
        proof {
            assert(self@.skip(0) =~= self@);
        }
        let mut i: usize = 0;
        while i < n
            invariant
                n == self@.len(),
                0 <= i <= n,
                source_s@ == source@,
                lookup_time_us(self@, source@) == lookup_time_us(self@.skip(i as int), source@),
            decreases n - i,
        {
            proof {
                assert(self@.skip(i as int)[0] == self@[i as int]);
                assert(self@.skip(i as int).drop_first() =~= self@.skip(i + 1));
            }
            if self.entries[i].source == source_s {
                return Some(self.entries[i].time_us);
            }
            i = i + 1;
        }
        proof {
            assert(self@.skip(n as int) =~= Seq::<BookmarkEntryV>::empty());
        }
        None
    }
}

/// In a store without duplicate sources, the entry at a matching index is
/// what lookup returns.
proof fn lemma_bookmark_found(entries: Seq<BookmarkEntryV>, source: Seq<char>, i: int)
    requires
        0 <= i < entries.len(),
        entries[i].source == source,
        forall|j: int| 0 <= j < i ==> (#[trigger] entries[j]).source != source,
    ensures
        lookup_time_us(entries, source) == Some(entries[i].time_us),
    decreases entries.len(),
{
    if i > 0 {
        assert(entries.drop_first()[i - 1] == entries[i]);
        assert(forall|j: int|
            0 <= j < i - 1 ==> (#[trigger] entries.drop_first()[j]).source != source);
        lemma_bookmark_found(entries.drop_first(), source, i - 1);
    }
}


} // verus!

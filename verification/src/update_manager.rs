//! ETag-tracked cache for remote-fetched configuration blobs.
//!
//! The cache keeps the current freshness tag and the one before it: a tag is
//! treated as unknown (the data is worth re-fetching) only when it differs from
//! both, a deliberate one-generation grace window so a blob fetched just before
//! a tag rotation is not treated as unknown.

use vstd::prelude::*;

verus! {

/// Generic ETag-tracked cache for a remote-fetched configuration blob.
pub struct UpdateManager<T> {
    pub current_etag: String,
    pub old_etag: String,
    pub last_updated: i64,
    pub data: T,
}

/// A tag is stale when it matches neither the current tag nor the previous one.
pub open spec fn spec_is_updated<T>(m: UpdateManager<T>, etag: Seq<char>) -> bool {
    m.current_etag@ != etag && m.old_etag@ != etag
}

/// The cached data has expired once its age, measured against `now`, exceeds `ttl`.
pub open spec fn spec_is_expired<T>(m: UpdateManager<T>, ttl: int, now: int) -> bool {
    m.last_updated + ttl < now
}

/// Relies on chrono::Utc::now (then DateTime::timestamp): seconds since the
/// Unix epoch at the moment of the call.
#[verifier::external_body]
fn now_unix_seconds() -> i64 {
    chrono::Utc::now().timestamp()
}

impl<T> UpdateManager<T> {
    /// An empty cache around initial data: both tags empty, never refreshed.
    pub fn new(data: T) -> (r: UpdateManager<T>)
        ensures
            r.current_etag@ == Seq::<char>::empty(),
            r.old_etag@ == Seq::<char>::empty(),
            r.last_updated == 0,
            r.data == data,
    {
        UpdateManager {
            current_etag: String::new(),
            old_etag: String::new(),
            last_updated: 0,
            data,
        }
    }

    /// Store a new tag and blob as of time `now`; the current tag is shifted
    /// into the previous-tag slot, keeping the one-generation grace window.
    pub fn update_at(&mut self, etag: String, data: T, now: i64)
        ensures
            final(self).current_etag == etag,
            final(self).old_etag == old(self).current_etag,
            final(self).data == data,
            final(self).last_updated == now,
    {
        self.old_etag = self.current_etag.clone();
        self.current_etag = etag;
        self.last_updated = now;
        self.data = data;
    }

    /// Store a new tag and blob, timestamped with the wall clock.
    pub fn update(&mut self, etag: String, data: T)
        ensures
            final(self).current_etag == etag,
            final(self).old_etag == old(self).current_etag,
            final(self).data == data,
    {
        let now = now_unix_seconds();
        self.update_at(etag, data, now);
    }

    /// Whether `etag` is unknown to the cache (stale), honouring the grace window.
    pub fn is_updated(&self, etag: &str) -> (r: bool)
        ensures
            r == spec_is_updated(*self, etag@),
    {
        let e = etag.to_owned();
        !(self.current_etag == e) && !(self.old_etag == e)
    }

    /// Whether the cache has outlived `ttl` as of the given time.
    pub fn is_expired_at(&self, ttl: i64, now: i64) -> (r: bool)
        ensures
            r == spec_is_expired(*self, ttl as int, now as int),
    {
        match self.last_updated.checked_add(ttl) {
            Some(s) => s < now,
            // The mathematical sum overflows i64: below i64::MIN only when ttl
            // is negative, in which case it is below any representable `now`.
            None => ttl < 0,
        }
    }

    /// Whether the cache has outlived `ttl`, measured against the wall clock.
    pub fn is_expired(&self, ttl: i64) -> bool {
        let now = now_unix_seconds();
        self.is_expired_at(ttl, now)
    }

    /// The cached blob.
    pub fn get_data(&self) -> (r: &T)
        ensures
            r == self.data,
    {
        &self.data
    }
}

/// One-generation grace window: right after an update that stored `post`, the
/// tag just stored is fresh, the immediately preceding tag is still fresh, and
/// every tag matching neither is stale.
pub proof fn lemma_update_grace_window<T>(
    pre: UpdateManager<T>,
    post: UpdateManager<T>,
    tag: Seq<char>,
    other: Seq<char>,
)
    requires
        post.current_etag@ == tag,
        post.old_etag@ == pre.current_etag@,
    ensures
        !spec_is_updated(post, tag),
        !spec_is_updated(post, pre.current_etag@),
        other != tag && other != pre.current_etag@ ==> spec_is_updated(post, other),
{
}

} // verus!
